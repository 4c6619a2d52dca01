//! Rendering of agent-session transcripts: one JSON value per line in, messages out.
use vstd::prelude::*;
use vstd::utf8::*;

use crate::hindsight::{HindsightConsumerError, HindsightErrorView, HindsightRenderProfile};
use crate::json;
use crate::json::{member_of, object_member, parse_text, text_member, Json, JsonObject, JsonView};
use crate::text;
use crate::text::{
    chars_of, concat2, concat3, contains_text, decimal_text, find_from, is_blank, join_text,
    outside_utf8, same_text, signed_decimal_text, starts_with, text_of, trim_bounds, trimmed,
};

verus! {

/// The longest tool output, in characters, that is kept whole.
pub const MAX_TOOL_OUTPUT_CHARS: usize = 2_000;

proof fn lemma_first_from_bounds(text: Seq<char>, part: Seq<char>, from: int)
    ensures
        match text::first_from(text, part, from) {
            Some(at) => 0 <= from <= at && at + part.len() <= text.len(),
            None => true,
        },
    decreases text.len() + 1 - from,
{
    if 0 <= from && from + part.len() <= text.len() && !text::occurs_at(text, part, from) {
        lemma_first_from_bounds(text, part, from + 1);
    }
}

/// `text` without the passages that begin with `open` and end with the next `close`, the first
/// such passage taken out first; and whether there was one.
pub open spec fn strip_tag(text: Seq<char>, open_tag: Seq<char>, close_tag: Seq<char>) -> (Seq<
    char,
>, bool)
    decreases text.len(),
    via strip_tag_decreases
{
    match text::first_from(text, open_tag, 0) {
        None => (text, false),
        Some(start) => match text::first_from(text, close_tag, start + open_tag.len()) {
            None => (text, false),
            Some(end) => if open_tag.len() == 0 {
                (text, false)
            } else {
                (
                    strip_tag(
                        text.take(start) + text.skip(end + close_tag.len()),
                        open_tag,
                        close_tag,
                    ).0,
                    true,
                )
            },
        },
    }
}

#[via_fn]
proof fn strip_tag_decreases(text: Seq<char>, open_tag: Seq<char>, close_tag: Seq<char>) {
    lemma_first_from_bounds(text, open_tag, 0);
    if let Some(start) = text::first_from(text, open_tag, 0) {
        lemma_first_from_bounds(text, close_tag, start + open_tag.len());
    }
}

/// `text` without the passages of recalled memories, and whether there was one.
pub open spec fn stripped(text: Seq<char>) -> (Seq<char>, bool) {
    let first = strip_tag(text, "<hindsight_memories>"@, "</hindsight_memories>"@);
    let second = strip_tag(first.0, "<relevant_memories>"@, "</relevant_memories>"@);
    (second.0, first.1 || second.1)
}

/// Whether a user message is the text that a session starts with on its own.
pub open spec fn synthetic(text: Seq<char>) -> bool {
    &&& text::occurs_at(text::trim_start(text), "# AGENTS.md instructions for "@, 0)
    &&& text::occurs(text::trim_start(text), "<INSTRUCTIONS>"@)
    &&& text::occurs(text::trim_start(text), "</INSTRUCTIONS>"@)
}

/// A tool output cut to its longest length, and whether it was cut.
pub open spec fn truncated(text: Seq<char>) -> (Seq<char>, bool) {
    if text.len() <= MAX_TOOL_OUTPUT_CHARS {
        (text, false)
    } else {
        (text.take(MAX_TOOL_OUTPUT_CHARS as int) + "... (truncated)"@, true)
    }
}

fn strip_one_tag(chars: Vec<char>, open_tag: &str, close_tag: &str) -> (result: (Vec<char>, bool))
    requires
        open_tag@.len() > 0,
    ensures
        (result.0@, result.1) == strip_tag(chars@, open_tag@, close_tag@),
{
    let ghost whole = strip_tag(chars@, open_tag@, close_tag@);
    let opening = chars_of(open_tag);
    let closing = chars_of(close_tag);
    let mut current: Vec<char> = chars;
    let mut changed: bool = false;
    loop
        invariant
            opening@ == open_tag@,
            closing@ == close_tag@,
            open_tag@.len() > 0,
            whole == strip_tag(chars@, open_tag@, close_tag@),
            whole == (
                strip_tag(current@, open_tag@, close_tag@).0,
                changed || strip_tag(current@, open_tag@, close_tag@).1,
            ),
        decreases current@.len(),
    {
        let total: usize = current.len();
        match find_from(&current, &opening, 0) {
            None => {
                return (current, changed);
            },
            Some(start) => {
                let from: usize = start + opening.len();
                match find_from(&current, &closing, from) {
                    None => {
                        return (current, changed);
                    },
                    Some(end) => {
                        let mut next: Vec<char> = Vec::new();
                        let mut i: usize = 0;
                        while i < start
                            invariant
                                0 <= i <= start <= current@.len(),
                                next@ == current@.take(i as int),
                            decreases start - i,
                        {
                            assert(current@.take(i + 1) =~= current@.take(i as int).push(
                                current@[i as int],
                            ));
                            next.push(current[i]);
                            i += 1;
                        }
                        let after: usize = end + closing.len();
                        let mut j: usize = after;
                        while j < total
                            invariant
                                after <= j <= total,
                                total == current@.len(),
                                start <= current@.len(),
                                next@ == current@.take(start as int) + current@.subrange(
                                    after as int,
                                    j as int,
                                ),
                            decreases total - j,
                        {
                            assert(current@.subrange(after as int, j + 1) =~= current@.subrange(
                                after as int,
                                j as int,
                            ).push(current@[j as int]));
                            next.push(current[j]);
                            j += 1;
                        }
                        assert(next@ =~= current@.take(start as int) + current@.skip(after as int));
                        current = next;
                        changed = true;
                    },
                }
            },
        }
    }
}

/// `value` without the passages of recalled memories, and whether there was one.
pub fn strip_memory_tags(value: &str) -> (result: (String, bool))
    ensures
        (result.0@, result.1) == stripped(value@),
{
    proof {
        reveal_strlit("<hindsight_memories>");
        reveal_strlit("<relevant_memories>");
    }
    let first = strip_one_tag(chars_of(value), "<hindsight_memories>", "</hindsight_memories>");
    let second = strip_one_tag(first.0, "<relevant_memories>", "</relevant_memories>");
    let total: usize = second.0.len();
    assert(second.0@.subrange(0, total as int) =~= second.0@);
    (text_of(&second.0, 0, total), first.1 || second.1)
}

/// Whether a user message is the text that a session starts with on its own.
pub fn is_synthetic_codex_user_message(value: &str) -> (result: bool)
    ensures
        result == synthetic(value@),
{
    let chars = chars_of(value);
    let bounds = trim_bounds(&chars);
    let rest = text_of(&chars, bounds.0, chars.len());
    starts_with(rest.as_str(), "# AGENTS.md instructions for ") && contains_text(
        rest.as_str(),
        "<INSTRUCTIONS>",
    ) && contains_text(rest.as_str(), "</INSTRUCTIONS>")
}

/// A tool output cut to its longest length, and whether it was cut.
pub fn truncate_tool_output(value: &str) -> (result: (String, bool))
    ensures
        (result.0@, result.1) == truncated(value@),
{
    let chars = chars_of(value);
    if chars.len() <= MAX_TOOL_OUTPUT_CHARS {
        (value.to_owned(), false)
    } else {
        let kept = text_of(&chars, 0, MAX_TOOL_OUTPUT_CHARS);
        assert(kept@ =~= value@.take(MAX_TOOL_OUTPUT_CHARS as int));
        (concat2(kept.as_str(), "... (truncated)"), true)
    }
}

/// The texts of the items that are called `a` or `b`, in order.
pub open spec fn typed_texts(items: Seq<JsonView>, a: Seq<char>, b: Seq<char>) -> Seq<Seq<char>>
    decreases items.len(),
{
    if items.len() == 0 {
        Seq::empty()
    } else {
        let before = typed_texts(items.drop_last(), a, b);
        let item = Some(items.last());
        let kind = json::text_in(item, "type"@);
        match json::text_in(item, "text"@) {
            Some(text) => if kind == Some(a) || kind == Some(b) {
                before.push(text)
            } else {
                before
            },
            None => before,
        }
    }
}

/// The texts without white space at their ends, those left empty dropped.
pub open spec fn tidied(texts: Seq<Seq<char>>) -> Seq<Seq<char>>
    decreases texts.len(),
{
    if texts.len() == 0 {
        Seq::empty()
    } else if text::trim(texts.last()).len() == 0 {
        tidied(texts.drop_last())
    } else {
        tidied(texts.drop_last()).push(text::trim(texts.last()))
    }
}

/// The text of a message's content blocks.
pub open spec fn content_text(content: Option<JsonView>) -> Seq<char> {
    match json::as_items(content) {
        Some(items) => text::join(
            tidied(typed_texts(items, "input_text"@, "output_text"@)),
            "\n"@,
        ),
        None => Seq::empty(),
    }
}

/// The text of a function's output.
pub open spec fn function_output(value: JsonView) -> Seq<char> {
    match value {
        JsonView::Text(text) => text::trim(text),
        JsonView::Array(items) => text::trim(
            text::join(typed_texts(items, "input_text"@, "text"@), "\n"@),
        ),
        _ => Seq::empty(),
    }
}

/// The text of a tool server's result.
pub open spec fn mcp_result(value: JsonView) -> Option<Seq<char>> {
    match value {
        JsonView::Text(text) => Some(text),
        JsonView::Object(_) => match json::get(value, "content"@) {
            Some(JsonView::Text(text)) => Some(text),
            Some(JsonView::Array(items)) => Some(
                text::join(typed_texts(items, "text"@, "text"@), "\n"@),
            ),
            _ => None,
        },
        _ => None,
    }
}

/// The text of a bare message's content.
pub open spec fn value_text(value: JsonView) -> Seq<char> {
    match value {
        JsonView::Text(text) => text,
        JsonView::Array(_) => content_text(Some(value)),
        _ => json::json_text(value),
    }
}

fn read_typed_texts(items: &Vec<Json>, a: &str, b: &str) -> (result: Vec<String>)
    ensures
        text::views(result@) == typed_texts(json::items_view(items@), a@, b@),
{
    let mut texts: Vec<String> = Vec::new();
    let mut i: usize = 0;
    assert(text::views(texts@) =~= Seq::empty());
    while i < items.len()
        invariant
            0 <= i <= items@.len(),
            text::views(texts@) == typed_texts(json::items_view(items@.take(i as int)), a@, b@),
        decreases items@.len() - i,
    {
        proof {
            assert(items@.take(i + 1) =~= items@.take(i as int).push(items@[i as int]));
            json::lemma_items_push(items@.take(i as int), items@[i as int]);
            let all = json::items_view(items@.take(i + 1));
            assert(all.drop_last() =~= json::items_view(items@.take(i as int)));
            assert(all.last() == items@[i as int]@);
        }
        let item: Option<&Json> = Some(&items[i]);
        let wanted: bool = match text_member(item, "type") {
            Some(kind) => same_text(kind, a) || same_text(kind, b),
            None => false,
        };
        match text_member(item, "text") {
            Some(found) => if wanted {
                let owned: String = found.to_owned();
                proof {
                    text::lemma_views_push(texts@, owned);
                }
                texts.push(owned);
            },
            None => {},
        }
        i += 1;
    }
    assert(items@.take(items@.len() as int) =~= items@);
    texts
}

fn tidy(texts: &Vec<String>) -> (result: Vec<String>)
    ensures
        text::views(result@) == tidied(text::views(texts@)),
{
    let mut kept: Vec<String> = Vec::new();
    let mut i: usize = 0;
    assert(text::views(kept@) =~= Seq::empty());
    while i < texts.len()
        invariant
            0 <= i <= texts@.len(),
            text::views(kept@) == tidied(text::views(texts@).take(i as int)),
        decreases texts@.len() - i,
    {
        proof {
            let all = text::views(texts@);
            assert(all.take(i + 1).drop_last() =~= all.take(i as int));
            assert(all.take(i + 1).last() == texts@[i as int]@);
        }
        let tidy_text = trimmed(texts[i].as_str());
        if !tidy_text.as_str().is_empty() {
            proof {
                text::lemma_views_push(kept@, tidy_text);
            }
            kept.push(tidy_text);
        }
        i += 1;
    }
    assert(text::views(texts@).take(texts@.len() as int) =~= text::views(texts@));
    kept
}

/// The text of a message's content blocks.
pub fn extract_text_from_content_blocks(content: Option<&Json>) -> (result: String)
    ensures
        result@ == content_text(text::view_option(content)),
{
    match content {
        Some(Json::Array(items)) => {
            join_text(&tidy(&read_typed_texts(items, "input_text", "output_text")), "\n")
        },
        _ => String::new(),
    }
}

/// The text of a function's output.
pub fn extract_function_output_text(value: &Json) -> (result: String)
    ensures
        result@ == function_output(value@),
{
    match value {
        Json::Text(text) => trimmed(text.as_str()),
        Json::Array(items) => {
            trimmed(join_text(&read_typed_texts(items, "input_text", "text"), "\n").as_str())
        },
        _ => String::new(),
    }
}

/// The text of a tool server's result.
pub fn extract_mcp_result_text(value: &Json) -> (result: Option<String>)
    ensures
        text::view_option(result) == mcp_result(value@),
{
    match value {
        Json::Text(text) => Some(text.clone()),
        Json::Object(_) => match value.get("content") {
            Some(Json::Text(text)) => Some(text.clone()),
            Some(Json::Array(items)) => {
                Some(join_text(&read_typed_texts(items, "text", "text"), "\n"))
            },
            _ => None,
        },
        _ => None,
    }
}

/// The text of a bare message's content.
pub fn value_to_text(value: &Json) -> (result: String)
    ensures
        result@ == value_text(value@),
{
    match value {
        Json::Text(text) => text.clone(),
        Json::Array(_) => extract_text_from_content_blocks(Some(value)),
        _ => value.to_text(),
    }
}

/// An object with no members.
pub open spec fn blank() -> Map<Seq<char>, JsonView> {
    Map::empty()
}

/// A block that holds a text.
pub open spec fn text_block(text: Seq<char>) -> JsonView {
    JsonView::Object(
        blank().insert("type"@, JsonView::Text("text"@)).insert("text"@, JsonView::Text(text)),
    )
}

/// A block that says which tool was used on what input.
pub open spec fn use_block(name: Seq<char>, input: JsonView) -> JsonView {
    JsonView::Object(
        blank().insert("type"@, JsonView::Text("tool_use"@)).insert(
            "name"@,
            JsonView::Text(name),
        ).insert("input"@, input),
    )
}

/// A block that holds what a tool returned.
pub open spec fn result_block(output: Seq<char>) -> JsonView {
    JsonView::Object(
        blank().insert("type"@, JsonView::Text("tool_result"@)).insert(
            "content"@,
            JsonView::Text(output),
        ),
    )
}

/// An object with one member.
pub open spec fn single(name: Seq<char>, value: JsonView) -> JsonView {
    JsonView::Object(blank().insert(name, value))
}

/// What one line tells of the use of tools: the blocks it adds, and how many of them are calls,
/// results and cut results.
#[verifier::ext_equal]
pub struct ToolsView {
    pub blocks: Seq<JsonView>,
    pub calls: nat,
    pub results: nat,
    pub cut: nat,
}

/// A line that tells nothing of tools.
pub open spec fn no_tools() -> ToolsView {
    ToolsView { blocks: Seq::empty(), calls: 0, results: 0, cut: 0 }
}

/// One call of a tool.
pub open spec fn tool_call(name: Seq<char>, input: JsonView) -> ToolsView {
    ToolsView { blocks: seq![use_block(name, input)], calls: 1, results: 0, cut: 0 }
}

/// What a tool returned, where anything but white space came.
pub open spec fn tool_result(output: Option<Seq<char>>) -> ToolsView {
    match output {
        Some(text) => if text::trim(text).len() == 0 {
            no_tools()
        } else {
            let kept = truncated(text::trim(text));
            ToolsView {
                blocks: seq![result_block(kept.0)],
                calls: 0,
                results: 1,
                cut: if kept.1 {
                    1
                } else {
                    0
                },
            }
        },
        None => no_tools(),
    }
}

/// One after the other.
pub open spec fn followed(first: ToolsView, second: ToolsView) -> ToolsView {
    ToolsView {
        blocks: first.blocks + second.blocks,
        calls: first.calls + second.calls,
        results: first.results + second.results,
        cut: first.cut + second.cut,
    }
}

/// The value, or the empty array in its absence.
pub open spec fn or_empty_array(value: Option<JsonView>) -> JsonView {
    match value {
        Some(value) => value,
        None => JsonView::Array(Seq::empty()),
    }
}

/// The input of a tool: the value that the raw text reads as, or else the raw text itself.
pub open spec fn tool_input(raw: Option<Seq<char>>) -> JsonView {
    match raw {
        Some(text) => match json::json_of_text(text) {
            Ok(value) => value,
            Err(_) => single("raw"@, JsonView::Text(text)),
        },
        None => single("raw"@, JsonView::Text("{}"@)),
    }
}

/// The text, or `other` in its absence.
pub open spec fn text_or(text: Option<Seq<char>>, other: Seq<char>) -> Seq<char> {
    match text {
        Some(text) => text,
        None => other,
    }
}

/// What a response item of the given kind tells of tools.
pub open spec fn response_tools(kind: Seq<char>, payload: JsonView) -> ToolsView {
    let whole = Some(payload);
    let action = json::as_object(json::get(payload, "action"@));
    if kind == "local_shell_call"@ {
        tool_call("shell"@, single("command"@, or_empty_array(json::get_in(action, "command"@))))
    } else if kind == "function_call"@ {
        tool_call(
            text_or(json::text_in(whole, "name"@), "unknown"@),
            tool_input(json::text_in(whole, "arguments"@)),
        )
    } else if kind == "custom_tool_call"@ {
        tool_call(
            text_or(json::text_in(whole, "name"@), "unknown"@),
            tool_input(json::text_in(whole, "input"@)),
        )
    } else if kind == "function_call_output"@ || kind == "custom_tool_call_output"@ {
        match json::get(payload, "output"@) {
            Some(output) => tool_result(Some(function_output(output))),
            None => no_tools(),
        }
    } else if kind == "web_search_call"@ {
        match json::text_in(action, "query"@) {
            Some(query) => if query.len() == 0 {
                no_tools()
            } else {
                tool_call("web_search"@, single("query"@, JsonView::Text(query)))
            },
            None => no_tools(),
        }
    } else {
        no_tools()
    }
}

/// The parts of a finished command's result.
pub open spec fn command_report(payload: JsonView) -> Seq<Seq<char>> {
    let output = match json::text_in(Some(payload), "aggregated_output"@) {
        Some(output) => if output.len() == 0 {
            Seq::empty()
        } else {
            seq![output]
        },
        None => Seq::empty(),
    };
    let code = match json::as_integer(json::get(payload, "exit_code"@)) {
        Some(code) => if code == 0 {
            Seq::empty()
        } else {
            seq!["exit_code: "@ + text::signed_decimal(code as int)]
        },
        None => Seq::empty(),
    };
    let status = match json::text_in(Some(payload), "status"@) {
        Some(status) => if status == "completed"@ {
            Seq::empty()
        } else {
            seq!["status: "@ + status]
        },
        None => Seq::empty(),
    };
    output + code + status
}

/// What an event message of the given kind tells of tools.
pub open spec fn event_tools(kind: Seq<char>, payload: JsonView) -> ToolsView {
    if kind == "exec_command_end"@ {
        followed(
            tool_call(
                "shell"@,
                single("command"@, or_empty_array(json::get(payload, "command"@))),
            ),
            if command_report(payload).len() == 0 {
                no_tools()
            } else {
                tool_result(Some(text::join(command_report(payload), "\n"@)))
            },
        )
    } else if kind == "patch_apply_end"@ {
        match json::as_items(json::get(payload, "changes"@)) {
            Some(changes) => if changes.len() == 0 {
                no_tools()
            } else {
                followed(
                    tool_call("patch"@, single("changes"@, JsonView::Array(changes))),
                    match json::text_in(Some(payload), "status"@) {
                        Some(status) => tool_result(Some("status: "@ + status)),
                        None => no_tools(),
                    },
                )
            },
            None => no_tools(),
        }
    } else if kind == "mcp_tool_call_end"@ {
        match json::get(payload, "result"@) {
            Some(result) => tool_result(mcp_result(result)),
            None => no_tools(),
        }
    } else {
        no_tools()
    }
}

/// What one line tells of the use of tools.
#[derive(Debug)]
pub struct ToolUse {
    pub blocks: Vec<Json>,
    pub calls: u64,
    pub results: u64,
    pub cut: u64,
}

impl View for ToolUse {
    type V = ToolsView;

    open spec fn view(&self) -> ToolsView {
        ToolsView {
            blocks: json::items_view(self.blocks@),
            calls: self.calls as nat,
            results: self.results as nat,
            cut: self.cut as nat,
        }
    }
}

impl ToolUse {
    fn none() -> (result: ToolUse)
        ensures
            result@ == no_tools(),
    {
        ToolUse { blocks: Vec::new(), calls: 0, results: 0, cut: 0 }
    }

    fn call(name: &str, input: Json) -> (result: ToolUse)
        ensures
            result@ == tool_call(name@, input@),
    {
        let block = JsonObject::new().with_text("type", "tool_use").with_text("name", name).with(
            "input",
            input,
        ).finish();
        let mut blocks: Vec<Json> = Vec::new();
        proof {
            json::lemma_items_push(blocks@, block);
        }
        blocks.push(block);
        let result = ToolUse { blocks, calls: 1, results: 0, cut: 0 };
        assert(result@ =~= tool_call(name@, input@));
        result
    }

    /// This, and then what a tool returned.
    fn and_result(self, output: Option<&str>) -> (result: ToolUse)
        requires
            self.results < u64::MAX,
            self.cut < u64::MAX,
        ensures
            result@ == followed(self@, tool_result(text::view_option(output))),
    {
        let found = match output {
            Some(found) => found,
            None => {
                assert(self@ =~= followed(self@, no_tools()));
                return self;
            },
        };
        let tidy_text = trimmed(found);
        if tidy_text.as_str().is_empty() {
            assert(self@ =~= followed(self@, no_tools()));
            return self;
        }
        let kept = truncate_tool_output(tidy_text.as_str());
        let block = JsonObject::new().with_text("type", "tool_result").with_text(
            "content",
            kept.0.as_str(),
        ).finish();
        let mut blocks = self.blocks;
        proof {
            json::lemma_items_push(blocks@, block);
        }
        blocks.push(block);
        let result = ToolUse {
            blocks,
            calls: self.calls,
            results: self.results + 1,
            cut: if kept.1 {
                self.cut + 1
            } else {
                self.cut
            },
        };
        assert(result@ =~= followed(self@, tool_result(text::view_option(output))));
        result
    }
}

/// A JSON object with one member.
fn single_member(name: &str, value: Json) -> (result: Json)
    ensures
        result@ == single(name@, value@),
{
    JsonObject::new().with(name, value).finish()
}

/// A copy of the value, or the empty array in its absence.
fn copy_or_empty_array(value: Option<&Json>) -> (result: Json)
    ensures
        result@ == or_empty_array(text::view_option(value)),
{
    match value {
        Some(value) => value.copy(),
        None => Json::Array(Vec::new()),
    }
}

/// The input of a tool: the value that the raw text reads as, or else the raw text itself.
fn read_tool_input(raw: Option<&str>) -> (result: Json)
    ensures
        result@ == tool_input(text::view_option(raw)),
{
    match raw {
        Some(raw) => match parse_text(raw) {
            Ok(value) => value,
            Err(_) => single_member("raw", Json::Text(raw.to_owned())),
        },
        None => single_member("raw", Json::Text("{}".to_owned())),
    }
}

/// What a response item of the given kind tells of tools.
pub fn tool_response_item(payload_type: &str, payload: &Json) -> (result: ToolUse)
    ensures
        result@ == response_tools(payload_type@, payload@),
        result.calls <= 1 && result.results <= 1 && result.cut <= 1,
{
    let whole: Option<&Json> = Some(payload);
    let action = object_member(whole, "action");
    if same_text(payload_type, "local_shell_call") {
        let command = copy_or_empty_array(member_of(action, "command"));
        ToolUse::call("shell", single_member("command", command))
    } else if same_text(payload_type, "function_call") || same_text(
        payload_type,
        "custom_tool_call",
    ) {
        let name = match text_member(whole, "name") {
            Some(name) => name,
            None => "unknown",
        };
        let raw = if same_text(payload_type, "function_call") {
            text_member(whole, "arguments")
        } else {
            text_member(whole, "input")
        };
        ToolUse::call(name, read_tool_input(raw))
    } else if same_text(payload_type, "function_call_output") || same_text(
        payload_type,
        "custom_tool_call_output",
    ) {
        match payload.get("output") {
            Some(output) => {
                let output = extract_function_output_text(output);
                let result = ToolUse::none().and_result(Some(output.as_str()));
                assert(result@ =~= tool_result(Some(output@)));
                result
            },
            None => ToolUse::none(),
        }
    } else if same_text(payload_type, "web_search_call") {
        match text_member(action, "query") {
            Some(query) => if query.is_empty() {
                ToolUse::none()
            } else {
                ToolUse::call("web_search", single_member("query", Json::Text(query.to_owned())))
            },
            None => ToolUse::none(),
        }
    } else {
        ToolUse::none()
    }
}

/// The parts of a finished command's result.
fn read_command_report(payload: &Json) -> (result: Vec<String>)
    ensures
        text::views(result@) == command_report(payload@),
{
    let mut parts: Vec<String> = Vec::new();
    assert(text::views(parts@) =~= Seq::empty());
    match text_member(Some(payload), "aggregated_output") {
        Some(output) => if !output.is_empty() {
            let part: String = output.to_owned();
            proof {
                text::lemma_views_push(parts@, part);
            }
            parts.push(part);
        },
        None => {},
    }
    let code: Option<i64> = match payload.get("exit_code") {
        Some(value) => value.as_i64(),
        None => None,
    };
    match code {
        Some(code) => if code != 0 {
            let part = concat2("exit_code: ", signed_decimal_text(code).as_str());
            proof {
                text::lemma_views_push(parts@, part);
            }
            parts.push(part);
        },
        None => {},
    }
    match text_member(Some(payload), "status") {
        Some(status) => if !same_text(status, "completed") {
            let part = concat2("status: ", status);
            proof {
                text::lemma_views_push(parts@, part);
            }
            parts.push(part);
        },
        None => {},
    }
    assert(text::views(parts@) =~= command_report(payload@));
    parts
}

/// What an event message of the given kind tells of tools.
pub fn tool_event_message(payload_type: &str, payload: &Json) -> (result: ToolUse)
    ensures
        result@ == event_tools(payload_type@, payload@),
        result.calls <= 1 && result.results <= 1 && result.cut <= 1,
{
    if same_text(payload_type, "exec_command_end") {
        let command = copy_or_empty_array(payload.get("command"));
        let call = ToolUse::call("shell", single_member("command", command));
        let parts = read_command_report(payload);
        if parts.len() == 0 {
            assert(call@ =~= followed(call@, no_tools()));
            call
        } else {
            call.and_result(Some(join_text(&parts, "\n").as_str()))
        }
    } else if same_text(payload_type, "patch_apply_end") {
        match payload.get("changes") {
            Some(Json::Array(changes)) => {
                proof {
                    json::lemma_items_len(changes@);
                }
                if changes.len() == 0 {
                    ToolUse::none()
                } else {
                    let copied = Json::Array(json::copy_items(changes));
                    let call = ToolUse::call("patch", single_member("changes", copied));
                    match text_member(Some(payload), "status") {
                        Some(status) => call.and_result(Some(concat2("status: ", status).as_str())),
                        None => {
                            assert(call@ =~= followed(call@, no_tools()));
                            call
                        },
                    }
                }
            },
            _ => ToolUse::none(),
        }
    } else if same_text(payload_type, "mcp_tool_call_end") {
        match payload.get("result") {
            Some(result) => {
                let found = extract_mcp_result_text(result);
                let ghost expected = text::view_option(found);
                let used = match &found {
                    Some(found) => ToolUse::none().and_result(Some(found.as_str())),
                    None => ToolUse::none().and_result(None),
                };
                assert(used@ =~= tool_result(expected));
                used
            },
            None => ToolUse::none(),
        }
    } else {
        ToolUse::none()
    }
}

/// What one line of a transcript stands for.
pub enum EntryView {
    /// Nothing that is rendered.
    Skip,
    /// What the session says of itself.
    Session { id: Option<Seq<char>>, cwd: Option<Seq<char>> },
    /// An assistant message that is no final answer.
    Draft,
    /// A message of the user or the assistant.
    Message { user: bool, text: Seq<char> },
    /// The use of tools.
    Tools { tools: ToolsView },
    /// A message in the older form, for transcripts that hold no other.
    Event { user: bool, text: Seq<char> },
}

/// Whether a role is the user's, or the assistant's.
pub open spec fn role_of(role: Option<Seq<char>>) -> Option<bool> {
    if role == Some("user"@) {
        Some(true)
    } else if role == Some("assistant"@) {
        Some(false)
    } else {
        None
    }
}

/// What a response item stands for.
pub open spec fn response_entry(payload: Option<JsonView>, tool_aware: bool) -> EntryView {
    match json::text_in(payload, "type"@) {
        Some(kind) => if kind == "message"@ {
            match role_of(json::text_in(payload, "role"@)) {
                Some(user) => if !user && json::text_in(payload, "phase"@) != Some(
                    "final_answer"@,
                ) {
                    EntryView::Draft
                } else {
                    EntryView::Message { user, text: content_text(json::get_in(payload, "content"@)) }
                },
                None => EntryView::Skip,
            }
        } else if tool_aware {
            EntryView::Tools { tools: response_tools(kind, payload->Some_0) }
        } else {
            EntryView::Skip
        },
        None => EntryView::Skip,
    }
}

/// What an event message stands for.
pub open spec fn event_entry(payload: Option<JsonView>, tool_aware: bool) -> EntryView {
    match json::text_in(payload, "type"@) {
        Some(kind) => if kind == "user_message"@ || kind == "agent_message"@ {
            match json::text_in(payload, "message"@) {
                Some(text) => EntryView::Event { user: kind == "user_message"@, text },
                None => EntryView::Skip,
            }
        } else if tool_aware {
            EntryView::Tools { tools: event_tools(kind, payload->Some_0) }
        } else {
            EntryView::Skip
        },
        None => EntryView::Skip,
    }
}

/// What one value of a transcript stands for.
pub open spec fn entry_of(value: JsonView, tool_aware: bool) -> EntryView {
    let kind = json::text_in(Some(value), "type"@);
    let payload = json::as_object(json::get(value, "payload"@));
    if kind == Some("session_meta"@) {
        let id = match json::get_in(payload, "session_id"@) {
            Some(id) => Some(id),
            None => json::get_in(payload, "id"@),
        };
        EntryView::Session { id: json::as_text(id), cwd: json::text_in(payload, "cwd"@) }
    } else if kind == Some("response_item"@) {
        response_entry(payload, tool_aware)
    } else if kind == Some("event_msg"@) {
        event_entry(payload, tool_aware)
    } else {
        match (json::get(value, "role"@), json::get(value, "content"@)) {
            (Some(role), Some(content)) => match role_of(json::as_text(Some(role))) {
                Some(user) => EntryView::Message { user, text: value_text(content) },
                None => EntryView::Skip,
            },
            _ => EntryView::Skip,
        }
    }
}

/// What one line of a transcript stands for.
#[derive(Debug)]
pub enum Entry {
    Skip,
    Session { id: Option<String>, cwd: Option<String> },
    Draft,
    Message { user: bool, text: String },
    Tools { tools: ToolUse },
    Event { user: bool, text: String },
}

impl View for Entry {
    type V = EntryView;

    open spec fn view(&self) -> EntryView {
        match *self {
            Entry::Skip => EntryView::Skip,
            Entry::Session { id, cwd } => EntryView::Session {
                id: text::view_option(id),
                cwd: text::view_option(cwd),
            },
            Entry::Draft => EntryView::Draft,
            Entry::Message { user, text } => EntryView::Message { user, text: text@ },
            Entry::Tools { tools } => EntryView::Tools { tools: tools@ },
            Entry::Event { user, text } => EntryView::Event { user, text: text@ },
        }
    }
}

impl Entry {
    /// A line tells of at most one call and one result.
    pub open spec fn small(self) -> bool {
        match self {
            Entry::Tools { tools } => tools.calls <= 1 && tools.results <= 1 && tools.cut <= 1,
            _ => true,
        }
    }
}

/// An owned copy of an optional text.
pub fn copy_text(source: Option<&str>) -> (result: Option<String>)
    ensures
        text::view_option(result) == text::view_option(source),
{
    match source {
        Some(source) => Some(source.to_owned()),
        None => None,
    }
}

/// A copy of an optional text.
pub fn copy_optional(source: &Option<String>) -> (result: Option<String>)
    ensures
        text::view_option(result) == text::view_option(*source),
{
    match source {
        Some(source) => Some(source.clone()),
        None => None,
    }
}

/// Whether an optional text is `expected`.
fn text_is(source: Option<&str>, expected: &str) -> (result: bool)
    ensures
        result == (text::view_option(source) == Some(expected@)),
{
    match source {
        Some(source) => same_text(source, expected),
        None => false,
    }
}

fn read_role(role: Option<&str>) -> (result: Option<bool>)
    ensures
        result == role_of(text::view_option(role)),
{
    if text_is(role, "user") {
        Some(true)
    } else if text_is(role, "assistant") {
        Some(false)
    } else {
        None
    }
}

fn read_response_item(payload: Option<&Json>, tool_aware: bool) -> (result: Entry)
    ensures
        result@ == response_entry(text::view_option(payload), tool_aware),
        result.small(),
{
    let kind = match text_member(payload, "type") {
        Some(kind) => kind,
        None => {
            return Entry::Skip;
        },
    };
    if same_text(kind, "message") {
        match read_role(text_member(payload, "role")) {
            Some(user) => if !user && !text_is(text_member(payload, "phase"), "final_answer") {
                Entry::Draft
            } else {
                Entry::Message {
                    user,
                    text: extract_text_from_content_blocks(member_of(payload, "content")),
                }
            },
            None => Entry::Skip,
        }
    } else if tool_aware {
        match payload {
            Some(payload) => Entry::Tools { tools: tool_response_item(kind, payload) },
            None => Entry::Skip,
        }
    } else {
        Entry::Skip
    }
}

fn read_event_message(payload: Option<&Json>, tool_aware: bool) -> (result: Entry)
    ensures
        result@ == event_entry(text::view_option(payload), tool_aware),
        result.small(),
{
    let kind = match text_member(payload, "type") {
        Some(kind) => kind,
        None => {
            return Entry::Skip;
        },
    };
    let user: bool = same_text(kind, "user_message");
    if user || same_text(kind, "agent_message") {
        match text_member(payload, "message") {
            Some(message) => Entry::Event { user, text: message.to_owned() },
            None => Entry::Skip,
        }
    } else if tool_aware {
        match payload {
            Some(payload) => Entry::Tools { tools: tool_event_message(kind, payload) },
            None => Entry::Skip,
        }
    } else {
        Entry::Skip
    }
}

/// What one value of a transcript stands for.
pub fn read_entry(value: &Json, tool_aware: bool) -> (result: Entry)
    ensures
        result@ == entry_of(value@, tool_aware),
        result.small(),
{
    let kind = text_member(Some(value), "type");
    let payload = object_member(Some(value), "payload");
    if text_is(kind, "session_meta") {
        let id = match member_of(payload, "session_id") {
            Some(id) => Some(id),
            None => member_of(payload, "id"),
        };
        let id = match id {
            Some(id) => copy_text(id.as_str()),
            None => None,
        };
        Entry::Session { id, cwd: copy_text(text_member(payload, "cwd")) }
    } else if text_is(kind, "response_item") {
        read_response_item(payload, tool_aware)
    } else if text_is(kind, "event_msg") {
        read_event_message(payload, tool_aware)
    } else {
        match (value.get("role"), value.get("content")) {
            (Some(role), Some(content)) => match read_role(role.as_str()) {
                Some(user) => Entry::Message { user, text: value_to_text(content) },
                None => Entry::Skip,
            },
            _ => Entry::Skip,
        }
    }
}

/// Counts of what a rendering saw and kept.
#[derive(Clone, Copy, Debug, Eq, PartialEq, Structural)]
pub struct CodexRenderStats {
    pub source_messages: u64,
    pub included_messages: u64,
    pub filtered_synthetic_messages: u64,
    pub stripped_memory_echoes: u64,
    pub tool_calls: u64,
    pub tool_results: u64,
    pub truncated_tool_results: u64,
}

/// Counts of what a rendering saw and kept, without bounds.
pub struct StatsView {
    pub source: nat,
    pub included: nat,
    pub synthetic: nat,
    pub echoes: nat,
    pub calls: nat,
    pub results: nat,
    pub cut: nat,
}

impl View for CodexRenderStats {
    type V = StatsView;

    open spec fn view(&self) -> StatsView {
        StatsView {
            source: self.source_messages as nat,
            included: self.included_messages as nat,
            synthetic: self.filtered_synthetic_messages as nat,
            echoes: self.stripped_memory_echoes as nat,
            calls: self.tool_calls as nat,
            results: self.tool_results as nat,
            cut: self.truncated_tool_results as nat,
        }
    }
}

/// No counts.
pub open spec fn no_stats() -> StatsView {
    StatsView { source: 0, included: 0, synthetic: 0, echoes: 0, calls: 0, results: 0, cut: 0 }
}

impl StatsView {
    /// No count is above `limit`.
    pub open spec fn within(self, limit: nat) -> bool {
        &&& self.source <= limit
        &&& self.included <= limit
        &&& self.synthetic <= limit
        &&& self.echoes <= limit
        &&& self.calls <= limit
        &&& self.results <= limit
        &&& self.cut <= limit
    }
}

/// A rendered message.
#[verifier::ext_equal]
pub struct MessageView {
    pub user: bool,
    pub content: Seq<JsonView>,
    pub timestamp: Option<Seq<char>>,
}

/// A message in the older form.
#[verifier::ext_equal]
pub struct OldMessageView {
    pub user: bool,
    pub text: Seq<char>,
    pub timestamp: Option<Seq<char>>,
}

/// A rendering in progress.
#[verifier::ext_equal]
pub struct RenderingView {
    pub messages: Seq<MessageView>,
    /// Messages in the older form, held back.
    pub old: Seq<OldMessageView>,
    /// Blocks of the assistant message in the making, and its time.
    pub blocks: Seq<JsonView>,
    pub blocks_time: Option<Seq<char>>,
    pub saw_message: bool,
    pub session_id: Option<Seq<char>>,
    pub session_cwd: Option<Seq<char>>,
    pub stats: StatsView,
}

/// The rendering before the first line.
pub open spec fn unrendered() -> RenderingView {
    RenderingView {
        messages: Seq::empty(),
        old: Seq::empty(),
        blocks: Seq::empty(),
        blocks_time: None,
        saw_message: false,
        session_id: None,
        session_cwd: None,
        stats: no_stats(),
    }
}

/// The assistant message in the making becomes a message.
pub open spec fn flushed(s: RenderingView) -> RenderingView {
    if s.blocks.len() == 0 {
        s
    } else {
        RenderingView {
            messages: s.messages.push(
                MessageView { user: false, content: s.blocks, timestamp: s.blocks_time },
            ),
            blocks: Seq::empty(),
            blocks_time: None,
            ..s
        }
    }
}

/// One text becomes one message.
pub open spec fn pushed(
    s: RenderingView,
    user: bool,
    text: Seq<char>,
    timestamp: Option<Seq<char>>,
) -> RenderingView {
    RenderingView {
        messages: s.messages.push(MessageView { user, content: seq![text_block(text)], timestamp }),
        ..s
    }
}

/// A message is counted, freed of memory echoes, and kept unless it is synthetic or blank. Where
/// messages are grouped, the assistant's texts gather until the user speaks.
pub open spec fn admitted(
    s: RenderingView,
    user: bool,
    text: Seq<char>,
    timestamp: Option<Seq<char>>,
    grouped: bool,
) -> RenderingView {
    let clean = stripped(text);
    let filtered = user && synthetic(clean.0);
    let counted = RenderingView {
        stats: StatsView {
            source: s.stats.source + 1,
            echoes: if clean.1 {
                s.stats.echoes + 1
            } else {
                s.stats.echoes
            },
            synthetic: if filtered {
                s.stats.synthetic + 1
            } else {
                s.stats.synthetic
            },
            ..s.stats
        },
        ..s
    };
    if filtered || text::trim(clean.0).len() == 0 {
        counted
    } else if !grouped {
        pushed(counted, user, clean.0, timestamp)
    } else if user {
        pushed(flushed(counted), user, clean.0, timestamp)
    } else {
        RenderingView {
            blocks: counted.blocks.push(text_block(clean.0)),
            blocks_time: timestamp,
            ..counted
        }
    }
}

/// The rendering after one more entry.
pub open spec fn entered(
    s: RenderingView,
    entry: EntryView,
    timestamp: Option<Seq<char>>,
    tool_aware: bool,
) -> RenderingView {
    match entry {
        EntryView::Skip => s,
        EntryView::Session { id, cwd } => RenderingView { session_id: id, session_cwd: cwd, ..s },
        EntryView::Draft => RenderingView {
            saw_message: true,
            stats: StatsView { source: s.stats.source + 1, ..s.stats },
            ..s
        },
        EntryView::Message { user, text } => admitted(
            RenderingView { saw_message: true, ..s },
            user,
            text,
            timestamp,
            tool_aware,
        ),
        EntryView::Tools { tools } => RenderingView {
            blocks: s.blocks + tools.blocks,
            blocks_time: if s.blocks.len() + tools.blocks.len() > 0 && timestamp is Some {
                timestamp
            } else {
                s.blocks_time
            },
            stats: StatsView {
                calls: s.stats.calls + tools.calls,
                results: s.stats.results + tools.results,
                cut: s.stats.cut + tools.cut,
                ..s.stats
            },
            ..s
        },
        EntryView::Event { user, text } => RenderingView {
            old: s.old.push(OldMessageView { user, text, timestamp }),
            ..s
        },
    }
}

/// The rendering of all values.
pub open spec fn rendered(values: Seq<JsonView>, tool_aware: bool) -> RenderingView
    decreases values.len(),
{
    if values.len() == 0 {
        unrendered()
    } else {
        let value = values.last();
        entered(
            rendered(values.drop_last(), tool_aware),
            entry_of(value, tool_aware),
            json::text_in(Some(value), "timestamp"@),
            tool_aware,
        )
    }
}

/// The held-back messages are admitted one by one.
pub open spec fn with_old(s: RenderingView, old: Seq<OldMessageView>) -> RenderingView
    decreases old.len(),
{
    if old.len() == 0 {
        s
    } else {
        let message = old.last();
        admitted(
            with_old(s, old.drop_last()),
            message.user,
            message.text,
            message.timestamp,
            false,
        )
    }
}

/// The rendering after the last line: what is in the making is finished, and the older form
/// stands in where no other message was seen.
pub open spec fn finished(s: RenderingView, tool_aware: bool) -> RenderingView {
    let done = if tool_aware {
        flushed(s)
    } else {
        s
    };
    if done.saw_message {
        done
    } else {
        with_old(done, done.old)
    }
}

/// The time of the last message that has one.
pub open spec fn last_time(messages: Seq<MessageView>) -> Option<Seq<char>>
    decreases messages.len(),
{
    if messages.len() == 0 {
        None
    } else if messages.last().timestamp is Some {
        messages.last().timestamp
    } else {
        last_time(messages.drop_last())
    }
}

/// The name of a role.
pub open spec fn role_name(user: bool) -> Seq<char> {
    if user {
        "user"@
    } else {
        "assistant"@
    }
}

/// A message as JSON.
pub open spec fn message_json(message: MessageView) -> JsonView {
    let bare = blank().insert("role"@, JsonView::Text(role_name(message.user))).insert(
        "content"@,
        JsonView::Array(message.content),
    );
    match message.timestamp {
        Some(time) => JsonView::Object(bare.insert("timestamp"@, JsonView::Text(time))),
        None => JsonView::Object(bare),
    }
}

/// A transcript ready to be retained.
#[verifier::ext_equal]
pub struct TranscriptView {
    pub content: Seq<char>,
    pub session_id: Option<Seq<char>>,
    pub session_cwd: Option<Seq<char>>,
    pub last_timestamp: Option<Seq<char>>,
    pub stats: StatsView,
}

/// Why a transcript without messages is refused.
pub open spec fn no_messages() -> HindsightErrorView {
    HindsightErrorView::InvalidTranscript("contains no user or assistant messages"@)
}

/// The transcript that the values make in a reference profile.
pub open spec fn reference_transcript(values: Seq<JsonView>, tool_aware: bool) -> Result<
    TranscriptView,
    HindsightErrorView,
> {
    let s = finished(rendered(values, tool_aware), tool_aware);
    if s.messages.len() == 0 {
        Err(no_messages())
    } else {
        Ok(
            TranscriptView {
                content: json::json_text(
                    JsonView::Array(s.messages.map_values(|m: MessageView| message_json(m))),
                ),
                session_id: s.session_id,
                session_cwd: s.session_cwd,
                last_timestamp: last_time(s.messages),
                stats: StatsView { included: s.messages.len(), ..s.stats },
            },
        )
    }
}

/// A rendered message.
#[derive(Debug)]
pub struct RenderedMessage {
    pub user: bool,
    pub content: Vec<Json>,
    pub timestamp: Option<String>,
}

impl View for RenderedMessage {
    type V = MessageView;

    open spec fn view(&self) -> MessageView {
        MessageView {
            user: self.user,
            content: json::items_view(self.content@),
            timestamp: text::view_option(self.timestamp),
        }
    }
}

/// A message in the older form.
#[derive(Debug)]
pub struct OldMessage {
    pub user: bool,
    pub text: String,
    pub timestamp: Option<String>,
}

impl View for OldMessage {
    type V = OldMessageView;

    open spec fn view(&self) -> OldMessageView {
        OldMessageView {
            user: self.user,
            text: self.text@,
            timestamp: text::view_option(self.timestamp),
        }
    }
}

/// A rendering in progress.
#[derive(Debug)]
pub struct Rendering {
    pub messages: Vec<RenderedMessage>,
    pub old: Vec<OldMessage>,
    pub blocks: Vec<Json>,
    pub blocks_time: Option<String>,
    pub saw_message: bool,
    pub session_id: Option<String>,
    pub session_cwd: Option<String>,
    pub stats: CodexRenderStats,
}

impl View for Rendering {
    type V = RenderingView;

    open spec fn view(&self) -> RenderingView {
        RenderingView {
            messages: text::views(self.messages@),
            old: text::views(self.old@),
            blocks: json::items_view(self.blocks@),
            blocks_time: text::view_option(self.blocks_time),
            saw_message: self.saw_message,
            session_id: text::view_option(self.session_id),
            session_cwd: text::view_option(self.session_cwd),
            stats: self.stats@,
        }
    }
}

/// A block that holds a text.
fn make_text_block(content: &str) -> (result: Json)
    ensures
        result@ == text_block(content@),
{
    JsonObject::new().with_text("type", "text").with_text("text", content).finish()
}

impl Rendering {
    fn new() -> (result: Rendering)
        ensures
            result@ == unrendered(),
    {
        let result = Rendering {
            messages: Vec::new(),
            old: Vec::new(),
            blocks: Vec::new(),
            blocks_time: None,
            saw_message: false,
            session_id: None,
            session_cwd: None,
            stats: CodexRenderStats {
                source_messages: 0,
                included_messages: 0,
                filtered_synthetic_messages: 0,
                stripped_memory_echoes: 0,
                tool_calls: 0,
                tool_results: 0,
                truncated_tool_results: 0,
            },
        };
        assert(result@ =~= unrendered());
        result
    }

    fn flush_assistant(&mut self)
        ensures
            final(self)@ == flushed(old(self)@),
    {
        proof {
            json::lemma_items_len(self.blocks@);
        }
        if self.blocks.len() == 0 {
            return;
        }
        let mut content: Vec<Json> = Vec::new();
        std::mem::swap(&mut content, &mut self.blocks);
        let timestamp = self.blocks_time.take();
        let message = RenderedMessage { user: false, content, timestamp };
        proof {
            text::lemma_views_push(self.messages@, message);
        }
        self.messages.push(message);
        assert(self@ =~= flushed(old(self)@));
    }

    fn push_text(&mut self, user: bool, content: &str, timestamp: Option<String>)
        ensures
            final(self)@ == pushed(old(self)@, user, content@, text::view_option(timestamp)),
    {
        let mut blocks: Vec<Json> = Vec::new();
        let block = make_text_block(content);
        proof {
            json::lemma_items_push(blocks@, block);
        }
        blocks.push(block);
        let message = RenderedMessage { user, content: blocks, timestamp };
        proof {
            text::lemma_views_push(self.messages@, message);
            assert(message@.content =~= seq![text_block(content@)]);
        }
        self.messages.push(message);
        assert(self@ =~= pushed(old(self)@, user, content@, text::view_option(timestamp)));
    }

    /// Counts a message, frees it of memory echoes, and keeps it unless it is synthetic or blank.
    fn take_message(&mut self, user: bool, source: &str, timestamp: Option<String>, grouped: bool)
        requires
            old(self)@.stats.source < u64::MAX,
            old(self)@.stats.synthetic < u64::MAX,
            old(self)@.stats.echoes < u64::MAX,
        ensures
            final(self)@ == admitted(
                old(self)@,
                user,
                source@,
                text::view_option(timestamp),
                grouped,
            ),
    {
        let ghost before = self@;
        let ghost time = text::view_option(timestamp);
        self.stats.source_messages = self.stats.source_messages + 1;
        let clean = strip_memory_tags(source);
        if clean.1 {
            self.stats.stripped_memory_echoes = self.stats.stripped_memory_echoes + 1;
        }
        if user && is_synthetic_codex_user_message(clean.0.as_str()) {
            self.stats.filtered_synthetic_messages = self.stats.filtered_synthetic_messages + 1;
            assert(self@ =~= admitted(before, user, source@, time, grouped));
            return;
        }
        if is_blank(clean.0.as_str()) {
            assert(self@ =~= admitted(before, user, source@, time, grouped));
            return;
        }
        if !grouped {
            self.push_text(user, clean.0.as_str(), timestamp);
        } else if user {
            self.flush_assistant();
            self.push_text(user, clean.0.as_str(), timestamp);
        } else {
            let block = make_text_block(clean.0.as_str());
            proof {
                json::lemma_items_push(self.blocks@, block);
            }
            self.blocks.push(block);
            self.blocks_time = timestamp;
        }
        assert(self@ =~= admitted(before, user, source@, time, grouped));
    }

    fn add_tools(&mut self, tools: ToolUse, timestamp: Option<String>)
        requires
            old(self)@.stats.within((u64::MAX - 1) as nat),
            tools.calls <= 1 && tools.results <= 1 && tools.cut <= 1,
        ensures
            final(self)@ == entered(
                old(self)@,
                (EntryView::Tools { tools: tools@ }),
                text::view_option(timestamp),
                true,
            ),
    {
        let ghost before = self@;
        let ghost added = tools@;
        let ghost time = text::view_option(timestamp);
        self.stats.tool_calls = self.stats.tool_calls + tools.calls;
        self.stats.tool_results = self.stats.tool_results + tools.results;
        self.stats.truncated_tool_results = self.stats.truncated_tool_results + tools.cut;
        let blocks = tools.blocks;
        proof {
            json::lemma_items_len(blocks@);
            json::lemma_items_len(self.blocks@);
        }
        let mut i: usize = 0;
        assert(self@.blocks =~= before.blocks + added.blocks.take(0));
        while i < blocks.len()
            invariant
                0 <= i <= blocks@.len(),
                added.blocks == json::items_view(blocks@),
                added.blocks.len() == blocks@.len(),
                forall|j: int|
                    0 <= j < blocks@.len() ==> #[trigger] added.blocks[j] == json::json_view(
                        blocks@[j],
                    ),
                self@ == (RenderingView {
                    blocks: before.blocks + added.blocks.take(i as int),
                    stats: self@.stats,
                    ..before
                }),
                self@.stats.calls == before.stats.calls + added.calls,
                self@.stats.results == before.stats.results + added.results,
                self@.stats.cut == before.stats.cut + added.cut,
                self@.stats.source == before.stats.source,
                self@.stats.included == before.stats.included,
                self@.stats.synthetic == before.stats.synthetic,
                self@.stats.echoes == before.stats.echoes,
            decreases blocks@.len() - i,
        {
            let block = blocks[i].copy();
            proof {
                json::lemma_items_push(self.blocks@, block);
                assert(before.blocks + added.blocks.take(i + 1) =~= (before.blocks
                    + added.blocks.take(i as int)).push(added.blocks[i as int]));
            }
            self.blocks.push(block);
            assert(self@ =~= (RenderingView {
                blocks: before.blocks + added.blocks.take(i + 1),
                stats: self@.stats,
                ..before
            }));
            i += 1;
        }
        proof {
            assert(added.blocks.take(added.blocks.len() as int) =~= added.blocks);
            json::lemma_items_len(self.blocks@);
        }
        if self.blocks.len() > 0 && timestamp.is_some() {
            self.blocks_time = timestamp;
        }
        assert(self@ =~= entered(before, EntryView::Tools { tools: added }, time, true));
    }

    /// Takes in one entry.
    fn enter(&mut self, entry: Entry, timestamp: Option<String>, tool_aware: bool)
        requires
            old(self)@.stats.within((u64::MAX - 1) as nat),
            entry.small(),
        ensures
            final(self)@ == entered(
                old(self)@,
                entry@,
                text::view_option(timestamp),
                tool_aware,
            ),
    {
        let ghost before = self@;
        let ghost time = text::view_option(timestamp);
        let ghost added = entry@;
        match entry {
            Entry::Skip => {},
            Entry::Session { id, cwd } => {
                self.session_id = id;
                self.session_cwd = cwd;
                assert(self@ =~= entered(before, added, time, tool_aware));
            },
            Entry::Draft => {
                self.saw_message = true;
                self.stats.source_messages = self.stats.source_messages + 1;
                assert(self@ =~= entered(before, added, time, tool_aware));
            },
            Entry::Message { user, text } => {
                self.saw_message = true;
                assert(self@ =~= (RenderingView { saw_message: true, ..before }));
                self.take_message(user, text.as_str(), timestamp, tool_aware);
            },
            Entry::Tools { tools } => {
                self.add_tools(tools, timestamp);
            },
            Entry::Event { user, text } => {
                let message = OldMessage { user, text, timestamp };
                proof {
                    text::lemma_views_push(self.old@, message);
                }
                self.old.push(message);
                assert(self@ =~= entered(before, added, time, tool_aware));
            },
        }
    }

    /// Finishes what is in the making; the older form stands in where no other message was seen.
    fn finish(&mut self, tool_aware: bool)
        requires
            old(self)@.stats.within(u64::MAX as nat),
            !old(self)@.saw_message ==> old(self)@.stats.source == 0 && old(
                self,
            )@.stats.synthetic == 0 && old(self)@.stats.echoes == 0,
        ensures
            final(self)@ == finished(old(self)@, tool_aware),
    {
        if tool_aware {
            self.flush_assistant();
        }
        if self.saw_message {
            return;
        }
        let ghost start = self@;
        let ghost held = self@.old;
        let total: usize = self.old.len();
        let mut i: usize = 0;
        assert(held.take(0) =~= Seq::empty());
        while i < total
            invariant
                0 <= i <= total,
                total == self.old@.len(),
                total <= usize::MAX,
                held == start.old,
                self@ == with_old(start, held.take(i as int)),
                self@.old == held,
                start.stats.source == 0 && start.stats.synthetic == 0 && start.stats.echoes == 0,
                start.stats.within(u64::MAX as nat),
                self@.stats.source <= i && self@.stats.synthetic <= i && self@.stats.echoes <= i,
                self@.stats.calls == start.stats.calls && self@.stats.results == start.stats.results
                    && self@.stats.cut == start.stats.cut && self@.stats.included
                    == start.stats.included,
            decreases total - i,
        {
            let user: bool = self.old[i].user;
            let source: String = self.old[i].text.clone();
            let timestamp = copy_optional(&self.old[i].timestamp);
            proof {
                assert(held.take(i + 1).drop_last() =~= held.take(i as int));
                assert(held.take(i + 1).last() == self.old@[i as int]@);
            }
            self.take_message(user, source.as_str(), timestamp, false);
            i += 1;
        }
        assert(held.take(total as int) =~= held);
    }
}

/// A transcript ready to be retained.
#[derive(Debug)]
pub struct CodexTranscript {
    pub content: String,
    pub session_id: Option<String>,
    pub session_cwd: Option<String>,
    pub last_timestamp: Option<String>,
    pub render_stats: CodexRenderStats,
}

impl View for CodexTranscript {
    type V = TranscriptView;

    open spec fn view(&self) -> TranscriptView {
        TranscriptView {
            content: self.content@,
            session_id: text::view_option(self.session_id),
            session_cwd: text::view_option(self.session_cwd),
            last_timestamp: text::view_option(self.last_timestamp),
            stats: self.render_stats@,
        }
    }
}

/// What came of a rendering.
pub open spec fn transcript_outcome(result: Result<CodexTranscript, HindsightConsumerError>) -> Result<
    TranscriptView,
    HindsightErrorView,
> {
    match result {
        Ok(transcript) => Ok(transcript@),
        Err(error) => Err(error@),
    }
}

fn find_last_time(messages: &Vec<RenderedMessage>) -> (result: Option<String>)
    ensures
        text::view_option(result) == last_time(text::views(messages@)),
{
    let ghost all = text::views(messages@);
    let mut i: usize = messages.len();
    assert(all.take(messages@.len() as int) =~= all);
    while i > 0
        invariant
            i <= messages@.len(),
            all == text::views(messages@),
            last_time(all) == last_time(all.take(i as int)),
        decreases i,
    {
        proof {
            assert(all.take(i as int).last() == messages@[i - 1]@);
            assert(all.take(i as int).drop_last() =~= all.take(i - 1));
        }
        if messages[i - 1].timestamp.is_some() {
            return copy_optional(&messages[i - 1].timestamp);
        }
        i -= 1;
    }
    None
}

fn make_message(message: &RenderedMessage) -> (result: Json)
    ensures
        result@ == message_json(message@),
{
    let role = if message.user {
        "user"
    } else {
        "assistant"
    };
    let content = Json::Array(json::copy_items(&message.content));
    let object = JsonObject::new().with_text("role", role).with("content", content);
    match &message.timestamp {
        Some(time) => object.with_text("timestamp", time.as_str()).finish(),
        None => object.finish(),
    }
}

fn make_messages(messages: &Vec<RenderedMessage>) -> (result: Json)
    ensures
        result@ == JsonView::Array(
            text::views(messages@).map_values(|m: MessageView| message_json(m)),
        ),
{
    let ghost all = text::views(messages@);
    let ghost expected = all.map_values(|m: MessageView| message_json(m));
    let mut items: Vec<Json> = Vec::new();
    let mut i: usize = 0;
    assert(expected.take(0) =~= Seq::empty());
    while i < messages.len()
        invariant
            0 <= i <= messages@.len(),
            all == text::views(messages@),
            expected == all.map_values(|m: MessageView| message_json(m)),
            json::items_view(items@) == expected.take(i as int),
        decreases messages@.len() - i,
    {
        let item = make_message(&messages[i]);
        proof {
            json::lemma_items_push(items@, item);
            assert(expected[i as int] == message_json(messages@[i as int]@));
            assert(expected.take(i + 1) =~= expected.take(i as int).push(expected[i as int]));
        }
        items.push(item);
        i += 1;
    }
    assert(expected.take(messages@.len() as int) =~= expected);
    Json::Array(items)
}

proof fn lemma_rendered_counts(values: Seq<JsonView>, tool_aware: bool)
    ensures
        rendered(values, tool_aware).stats.within(values.len()),
        rendered(values, tool_aware).stats.included == 0,
        !rendered(values, tool_aware).saw_message ==> rendered(values, tool_aware).stats.source == 0
            && rendered(values, tool_aware).stats.synthetic == 0 && rendered(
            values,
            tool_aware,
        ).stats.echoes == 0,
    decreases values.len(),
{
    if values.len() > 0 {
        lemma_rendered_counts(values.drop_last(), tool_aware);
    }
}

fn render_reference(values: &Vec<Json>, tool_aware: bool) -> (result: Result<
    CodexTranscript,
    HindsightConsumerError,
>)
    ensures
        transcript_outcome(result) == reference_transcript(json::items_view(values@), tool_aware),
{
    let ghost all = json::items_view(values@);
    proof {
        json::lemma_items_len(values@);
    }
    let mut rendering = Rendering::new();
    let mut i: usize = 0;
    let total: usize = values.len();
    assert(all.take(0) =~= Seq::empty());
    while i < total
        invariant
            0 <= i <= total,
            total == values@.len(),
            all == json::items_view(values@),
            all.len() == values@.len(),
            forall|j: int| 0 <= j < values@.len() ==> #[trigger] all[j] == json::json_view(values@[j]),
            rendering@ == rendered(all.take(i as int), tool_aware),
        decreases total - i,
    {
        let value = &values[i];
        let timestamp = copy_text(text_member(Some(value), "timestamp"));
        let entry = read_entry(value, tool_aware);
        proof {
            lemma_rendered_counts(all.take(i as int), tool_aware);
            assert(all.take(i + 1).drop_last() =~= all.take(i as int));
            assert(all.take(i + 1).last() == all[i as int]);
        }
        rendering.enter(entry, timestamp, tool_aware);
        i += 1;
    }
    proof {
        assert(all.take(total as int) =~= all);
        lemma_rendered_counts(all, tool_aware);
    }
    rendering.finish(tool_aware);
    if rendering.messages.len() == 0 {
        return Err(
            HindsightConsumerError::InvalidTranscript(
                "contains no user or assistant messages".to_owned(),
            ),
        );
    }
    let last_timestamp = find_last_time(&rendering.messages);
    let content = make_messages(&rendering.messages).to_text();
    let mut render_stats = rendering.stats;
    render_stats.included_messages = rendering.messages.len() as u64;
    let transcript = CodexTranscript {
        content,
        session_id: rendering.session_id,
        session_cwd: rendering.session_cwd,
        last_timestamp,
        render_stats,
    };
    assert(transcript@ =~= reference_transcript(all, tool_aware)->Ok_0);
    Ok(transcript)
}

/// A rendering in the legacy profile.
#[verifier::ext_equal]
pub struct LegacyView {
    pub parts: Seq<Seq<char>>,
    pub session_id: Option<Seq<char>>,
    pub session_cwd: Option<Seq<char>>,
    pub last_timestamp: Option<Seq<char>>,
}

/// One message in the legacy profile.
pub open spec fn legacy_part(user: bool, timestamp: Option<Seq<char>>, text: Seq<char>) -> Seq<char> {
    let role = if user {
        "User"@
    } else {
        "Assistant"@
    };
    role + " ("@ + text_or(timestamp, "unknown time"@) + "): "@ + text
}

/// The values rendered in the legacy profile: only messages in the older form count.
pub open spec fn legacy_rendered(values: Seq<JsonView>) -> LegacyView
    decreases values.len(),
{
    if values.len() == 0 {
        LegacyView {
            parts: Seq::empty(),
            session_id: None,
            session_cwd: None,
            last_timestamp: None,
        }
    } else {
        let before = legacy_rendered(values.drop_last());
        let timestamp = json::text_in(Some(values.last()), "timestamp"@);
        match entry_of(values.last(), false) {
            EntryView::Session { id, cwd } => LegacyView {
                session_id: id,
                session_cwd: cwd,
                ..before
            },
            EntryView::Event { user, text } => if text::trim(text).len() == 0 {
                before
            } else {
                LegacyView {
                    parts: before.parts.push(legacy_part(user, timestamp, text)),
                    last_timestamp: if timestamp is Some {
                        timestamp
                    } else {
                        before.last_timestamp
                    },
                    ..before
                }
            },
            _ => before,
        }
    }
}

/// The transcript that the values make in the legacy profile.
pub open spec fn legacy_transcript(values: Seq<JsonView>) -> Result<
    TranscriptView,
    HindsightErrorView,
> {
    let s = legacy_rendered(values);
    if s.parts.len() == 0 {
        Err(no_messages())
    } else {
        Ok(
            TranscriptView {
                content: text::join(s.parts, "\n\n"@),
                session_id: s.session_id,
                session_cwd: s.session_cwd,
                last_timestamp: s.last_timestamp,
                stats: StatsView { source: s.parts.len(), included: s.parts.len(), ..no_stats() },
            },
        )
    }
}

/// The transcript that the values make in a profile.
pub open spec fn transcript_of(values: Seq<JsonView>, profile: HindsightRenderProfile) -> Result<
    TranscriptView,
    HindsightErrorView,
> {
    match profile {
        HindsightRenderProfile::LegacyV1 => legacy_transcript(values),
        HindsightRenderProfile::ReferenceMessage => reference_transcript(values, false),
        HindsightRenderProfile::ReferenceToolAware => reference_transcript(values, true),
    }
}

fn make_legacy_part(user: bool, timestamp: &Option<String>, message: &str) -> (result: String)
    ensures
        result@ == legacy_part(user, text::view_option(*timestamp), message@),
{
    let role = if user {
        "User"
    } else {
        "Assistant"
    };
    let time = match timestamp {
        Some(time) => time.as_str(),
        None => "unknown time",
    };
    let head = concat3(role, " (", time);
    concat3(head.as_str(), "): ", message)
}

fn render_legacy(values: &Vec<Json>) -> (result: Result<CodexTranscript, HindsightConsumerError>)
    ensures
        transcript_outcome(result) == legacy_transcript(json::items_view(values@)),
{
    let ghost all = json::items_view(values@);
    proof {
        json::lemma_items_len(values@);
    }
    let mut parts: Vec<String> = Vec::new();
    let mut session_id: Option<String> = None;
    let mut session_cwd: Option<String> = None;
    let mut last_timestamp: Option<String> = None;
    let mut i: usize = 0;
    assert(all.take(0) =~= Seq::empty());
    assert(text::views(parts@) =~= Seq::empty());
    while i < values.len()
        invariant
            0 <= i <= values@.len(),
            all == json::items_view(values@),
            all.len() == values@.len(),
            forall|j: int| 0 <= j < values@.len() ==> #[trigger] all[j] == json::json_view(values@[j]),
            legacy_rendered(all.take(i as int)) == (LegacyView {
                parts: text::views(parts@),
                session_id: text::view_option(session_id),
                session_cwd: text::view_option(session_cwd),
                last_timestamp: text::view_option(last_timestamp),
            }),
        decreases values@.len() - i,
    {
        let value = &values[i];
        proof {
            assert(all.take(i + 1).drop_last() =~= all.take(i as int));
            assert(all.take(i + 1).last() == all[i as int]);
        }
        match read_entry(value, false) {
            Entry::Session { id, cwd } => {
                session_id = id;
                session_cwd = cwd;
            },
            Entry::Event { user, text } => if !is_blank(text.as_str()) {
                let timestamp = copy_text(text_member(Some(value), "timestamp"));
                let part = make_legacy_part(user, &timestamp, text.as_str());
                proof {
                    text::lemma_views_push(parts@, part);
                }
                parts.push(part);
                if timestamp.is_some() {
                    last_timestamp = timestamp;
                }
            },
            _ => {},
        }
        i += 1;
    }
    assert(all.take(values@.len() as int) =~= all);
    if parts.len() == 0 {
        return Err(
            HindsightConsumerError::InvalidTranscript(
                "contains no user or assistant messages".to_owned(),
            ),
        );
    }
    let count: u64 = parts.len() as u64;
    let transcript = CodexTranscript {
        content: join_text(&parts, "\n\n"),
        session_id,
        session_cwd,
        last_timestamp,
        render_stats: CodexRenderStats {
            source_messages: count,
            included_messages: count,
            filtered_synthetic_messages: 0,
            stripped_memory_echoes: 0,
            tool_calls: 0,
            tool_results: 0,
            truncated_tool_results: 0,
        },
    };
    assert(transcript@ =~= legacy_transcript(all)->Ok_0);
    Ok(transcript)
}

/// Renders the values of a transcript.
pub fn render_codex_transcript(values: &Vec<Json>, profile: HindsightRenderProfile) -> (result:
    Result<CodexTranscript, HindsightConsumerError>)
    ensures
        transcript_outcome(result) == transcript_of(json::items_view(values@), profile),
{
    match profile {
        HindsightRenderProfile::LegacyV1 => render_legacy(values),
        HindsightRenderProfile::ReferenceMessage => render_reference(values, false),
        HindsightRenderProfile::ReferenceToolAware => render_reference(values, true),
    }
}

/// The position of the line feed that ends the line at `from`, or the end.
pub open spec fn line_end(bytes: Seq<u8>, from: int) -> int
    decreases bytes.len() - from,
{
    if from >= bytes.len() {
        bytes.len() as int
    } else if bytes[from] == 10 {
        from
    } else {
        line_end(bytes, from + 1)
    }
}

/// A line without the carriage return before its line feed.
pub open spec fn line_between(bytes: Seq<u8>, from: int, end: int) -> Seq<u8> {
    if end < bytes.len() && from < end && bytes[end - 1] == 13 {
        bytes.subrange(from, end - 1)
    } else {
        bytes.subrange(from, end)
    }
}

pub proof fn lemma_line_end(bytes: Seq<u8>, from: int)
    requires
        0 <= from <= bytes.len(),
    ensures
        from <= line_end(bytes, from) <= bytes.len(),
        line_end(bytes, from) < bytes.len() ==> bytes[line_end(bytes, from)] == 10,
    decreases bytes.len() - from,
{
    if from < bytes.len() && bytes[from] != 10 {
        lemma_line_end(bytes, from + 1);
    }
}

/// The lines from position `from` on, without their line ends.
pub open spec fn lines_from(bytes: Seq<u8>, from: int) -> Seq<Seq<u8>>
    decreases bytes.len() + 1 - from,
    via lines_from_decreases
{
    if from < 0 || from >= bytes.len() {
        Seq::empty()
    } else {
        let end = line_end(bytes, from);
        seq![line_between(bytes, from, end)] + lines_from(bytes, end + 1)
    }
}

#[via_fn]
proof fn lines_from_decreases(bytes: Seq<u8>, from: int) {
    if 0 <= from < bytes.len() {
        lemma_line_end(bytes, from);
    }
}

/// What one line holds: a value, or nothing where it is blank.
pub open spec fn line_value(line: Seq<u8>, number: nat) -> Result<
    Option<JsonView>,
    HindsightErrorView,
> {
    if !valid_utf8(line) {
        Err(HindsightErrorView::Io("stream did not contain valid UTF-8"@))
    } else if text::trim(decode_utf8(line)).len() == 0 {
        Ok(None)
    } else {
        match json::json_of_text(decode_utf8(line)) {
            Ok(value) => Ok(Some(value)),
            Err(reason) => Err(
                HindsightErrorView::InvalidTranscript(
                    "line "@ + text::decimal(number) + " is not valid JSON: "@ + reason,
                ),
            ),
        }
    }
}

/// The values of the lines, or the refusal of the first line that holds none.
pub open spec fn line_values(lines: Seq<Seq<u8>>) -> Result<Seq<JsonView>, HindsightErrorView>
    decreases lines.len(),
{
    if lines.len() == 0 {
        Ok(Seq::empty())
    } else {
        match line_values(lines.drop_last()) {
            Err(error) => Err(error),
            Ok(values) => match line_value(lines.last(), lines.len()) {
                Err(error) => Err(error),
                Ok(None) => Ok(values),
                Ok(Some(value)) => Ok(values.push(value)),
            },
        }
    }
}

pub(crate) fn find_line_end(bytes: &[u8], from: usize) -> (result: usize)
    requires
        from < bytes@.len(),
    ensures
        result == line_end(bytes@, from as int),
{
    let mut i: usize = from;
    while i < bytes.len() && bytes[i] != 10
        invariant
            from <= i <= bytes@.len(),
            line_end(bytes@, from as int) == line_end(bytes@, i as int),
        decreases bytes@.len() - i,
    {
        i += 1;
    }
    i
}

/// The bytes between two positions.
pub(crate) fn bytes_between(bytes: &[u8], from: usize, to: usize) -> (result: Vec<u8>)
    requires
        from <= to <= bytes@.len(),
    ensures
        result@ == bytes@.subrange(from as int, to as int),
{
    let mut part: Vec<u8> = Vec::new();
    let mut i: usize = from;
    while i < to
        invariant
            from <= i <= to <= bytes@.len(),
            part@ == bytes@.subrange(from as int, i as int),
        decreases to - i,
    {
        assert(bytes@.subrange(from as int, i + 1) =~= bytes@.subrange(from as int, i as int).push(
            bytes@[i as int],
        ));
        part.push(bytes[i]);
        i += 1;
    }
    part
}

/// The lines of the bytes, without their line ends.
pub fn split_lines(bytes: &[u8]) -> (result: Vec<Vec<u8>>)
    ensures
        text::views(result@) == lines_from(bytes@, 0),
{
    let mut lines: Vec<Vec<u8>> = Vec::new();
    let mut from: usize = 0;
    let total: usize = bytes.len();
    assert(text::views(lines@) + lines_from(bytes@, 0) =~= lines_from(bytes@, 0));
    while from < total
        invariant
            from <= total,
            total == bytes@.len(),
            text::views(lines@) + lines_from(bytes@, from as int) == lines_from(bytes@, 0),
        decreases total - from,
    {
        let ghost before = text::views(lines@);
        let ghost start = from as int;
        proof {
            lemma_line_end(bytes@, from as int);
        }
        let end: usize = find_line_end(bytes, from);
        let line = if end < total && from < end && bytes[end - 1] == 13 {
            bytes_between(bytes, from, end - 1)
        } else {
            bytes_between(bytes, from, end)
        };
        proof {
            text::lemma_views_push(lines@, line);
        }
        lines.push(line);
        if end < total {
            from = end + 1;
        } else {
            from = total;
        }
        proof {
            let rest = lines_from(bytes@, end + 1);
            assert(lines_from(bytes@, from as int) == rest);
            assert(before.push(line@) + rest =~= before + (seq![line@] + rest));
        }
    }
    assert(text::views(lines@) + lines_from(bytes@, from as int) =~= text::views(lines@));
    lines
}

fn read_line(line: &Vec<u8>, number: u64) -> (result: Result<Option<Json>, HindsightConsumerError>)
    ensures
        (match result {
            Ok(value) => Ok(text::view_option(value)),
            Err(error) => Err(error@),
        }) == line_value(line@, number as nat),
{
    let content = match outside_utf8(line.as_slice()) {
        Some(content) => content,
        None => {
            return Err(
                HindsightConsumerError::Io("stream did not contain valid UTF-8".to_owned()),
            );
        },
    };
    if is_blank(content.as_str()) {
        return Ok(None);
    }
    match parse_text(content.as_str()) {
        Ok(value) => Ok(Some(value)),
        Err(reason) => {
            let head = concat3("line ", decimal_text(number).as_str(), " is not valid JSON: ");
            Err(
                HindsightConsumerError::InvalidTranscript(
                    concat2(head.as_str(), reason.as_str()),
                ),
            )
        },
    }
}

/// The values of the lines, or the refusal of the first line that holds none.
pub fn read_lines(lines: &Vec<Vec<u8>>) -> (result: Result<Vec<Json>, HindsightConsumerError>)
    ensures
        (match result {
            Ok(values) => Ok(json::items_view(values@)),
            Err(error) => Err(error@),
        }) == line_values(text::views(lines@)),
{
    let ghost all = text::views(lines@);
    let mut values: Vec<Json> = Vec::new();
    let mut i: usize = 0;
    assert(all.take(0) =~= Seq::empty());
    while i < lines.len()
        invariant
            0 <= i <= lines@.len(),
            all == text::views(lines@),
            line_values(all.take(i as int)) == Ok::<Seq<JsonView>, HindsightErrorView>(
                json::items_view(values@),
            ),
        decreases lines@.len() - i,
    {
        proof {
            assert(all.take(i + 1).drop_last() =~= all.take(i as int));
            assert(all.take(i + 1).last() == lines@[i as int]@);
        }
        match read_line(&lines[i], i as u64 + 1) {
            Ok(Some(value)) => {
                proof {
                    json::lemma_items_push(values@, value);
                }
                values.push(value);
            },
            Ok(None) => {},
            Err(error) => {
                proof {
                    lemma_line_error(all, i + 1);
                }
                return Err(error);
            },
        }
        i += 1;
    }
    assert(all.take(lines@.len() as int) =~= all);
    Ok(values)
}

/// The first refusal stands, whatever lines follow.
proof fn lemma_line_error(lines: Seq<Seq<u8>>, count: int)
    requires
        0 <= count <= lines.len(),
        line_values(lines.take(count)) is Err,
    ensures
        line_values(lines) == line_values(lines.take(count)),
    decreases lines.len(),
{
    if count == lines.len() {
        assert(lines.take(count) =~= lines);
    } else {
        assert(lines.drop_last().take(count) =~= lines.take(count));
        lemma_line_error(lines.drop_last(), count);
    }
}

/// What the bytes of a transcript render to.
pub open spec fn transcript_of_bytes(bytes: Seq<u8>, profile: HindsightRenderProfile) -> Result<
    TranscriptView,
    HindsightErrorView,
> {
    match line_values(lines_from(bytes, 0)) {
        Ok(values) => transcript_of(values, profile),
        Err(error) => Err(error),
    }
}

/// Renders the bytes of a transcript.
pub fn parse_codex_transcript(bytes: &[u8], profile: HindsightRenderProfile) -> (result: Result<
    CodexTranscript,
    HindsightConsumerError,
>)
    ensures
        transcript_outcome(result) == transcript_of_bytes(bytes@, profile),
{
    let lines = split_lines(bytes);
    match read_lines(&lines) {
        Ok(values) => render_codex_transcript(&values, profile),
        Err(error) => Err(error),
    }
}

/// A kept tool output holds at most its longest length and the mark that it was cut.
pub proof fn law_tool_output_is_bounded(output: Seq<char>)
    ensures
        truncated(output).0.len() <= MAX_TOOL_OUTPUT_CHARS + "... (truncated)"@.len(),
        truncated(output).1 <==> output.len() > MAX_TOOL_OUTPUT_CHARS,
{
}

/// Once the passages of a tag are taken out, none is left to take out.
pub proof fn law_stripping_is_complete(text: Seq<char>, open_tag: Seq<char>, close_tag: Seq<char>)
    requires
        open_tag.len() > 0,
    ensures
        strip_tag(strip_tag(text, open_tag, close_tag).0, open_tag, close_tag) == (
            strip_tag(text, open_tag, close_tag).0,
            false,
        ),
    decreases text.len(),
{
    lemma_first_from_bounds(text, open_tag, 0);
    if let Some(start) = text::first_from(text, open_tag, 0) {
        lemma_first_from_bounds(text, close_tag, start + open_tag.len());
        if let Some(end) = text::first_from(text, close_tag, start + open_tag.len()) {
            law_stripping_is_complete(
                text.take(start) + text.skip(end + close_tag.len()),
                open_tag,
                close_tag,
            );
        }
    }
}

/// A message of one text that is neither blank nor, from the user, synthetic.
pub open spec fn is_plain(message: MessageView) -> bool {
    exists|text: Seq<char>|
        {
            &&& message.content == seq![#[trigger] text_block(text)]
            &&& text::trim(text).len() > 0
            &&& !(message.user && synthetic(text))
        }
}

proof fn lemma_admitted_plain(
    s: RenderingView,
    user: bool,
    text: Seq<char>,
    timestamp: Option<Seq<char>>,
)
    requires
        forall|i: int| 0 <= i < s.messages.len() ==> is_plain(#[trigger] s.messages[i]),
    ensures
        forall|i: int|
            0 <= i < admitted(s, user, text, timestamp, false).messages.len() ==> is_plain(
                #[trigger] admitted(s, user, text, timestamp, false).messages[i],
            ),
{
    let next = admitted(s, user, text, timestamp, false);
    assert forall|i: int| 0 <= i < next.messages.len() implies is_plain(
        #[trigger] next.messages[i],
    ) by {
        if i < s.messages.len() {
            assert(next.messages[i] == s.messages[i]);
        } else {
            assert(next.messages[i].content == seq![text_block(stripped(text).0)]);
        }
    }
}

proof fn lemma_with_old_plain(s: RenderingView, old_messages: Seq<OldMessageView>)
    requires
        forall|i: int| 0 <= i < s.messages.len() ==> is_plain(#[trigger] s.messages[i]),
    ensures
        forall|i: int|
            0 <= i < with_old(s, old_messages).messages.len() ==> is_plain(
                #[trigger] with_old(s, old_messages).messages[i],
            ),
    decreases old_messages.len(),
{
    if old_messages.len() > 0 {
        let message = old_messages.last();
        lemma_with_old_plain(s, old_messages.drop_last());
        lemma_admitted_plain(
            with_old(s, old_messages.drop_last()),
            message.user,
            message.text,
            message.timestamp,
        );
    }
}

proof fn lemma_rendered_plain(values: Seq<JsonView>)
    ensures
        forall|i: int|
            0 <= i < rendered(values, false).messages.len() ==> is_plain(
                #[trigger] rendered(values, false).messages[i],
            ),
    decreases values.len(),
{
    if values.len() > 0 {
        let before = rendered(values.drop_last(), false);
        let timestamp = json::text_in(Some(values.last()), "timestamp"@);
        lemma_rendered_plain(values.drop_last());
        match entry_of(values.last(), false) {
            EntryView::Message { user, text } => {
                lemma_admitted_plain(
                    RenderingView { saw_message: true, ..before },
                    user,
                    text,
                    timestamp,
                );
            },
            _ => {},
        }
    }
}

/// In the message profile nothing but texts of the user and the assistant is rendered: every
/// message is one text, not blank, and none of the user's is synthetic.
pub proof fn law_message_profile_renders_plain_texts(values: Seq<JsonView>)
    ensures
        forall|i: int|
            0 <= i < finished(rendered(values, false), false).messages.len() ==> is_plain(
                #[trigger] finished(rendered(values, false), false).messages[i],
            ),
{
    let s = rendered(values, false);
    lemma_rendered_plain(values);
    lemma_with_old_plain(s, s.old);
}

/// Whether a value is a message in the older form.
pub open spec fn is_older_form(tool_aware: bool) -> spec_fn(JsonView) -> bool {
    |value: JsonView| entry_of(value, tool_aware) is Event
}

/// The values that are no message in the older form.
pub open spec fn without_older_form(values: Seq<JsonView>, tool_aware: bool) -> Seq<JsonView> {
    values.filter(|value: JsonView| !is_older_form(tool_aware)(value))
}

/// Whether a value is a message of the user or the assistant, one that is no final answer included.
pub open spec fn is_message(value: JsonView, tool_aware: bool) -> bool {
    entry_of(value, tool_aware) is Message || entry_of(value, tool_aware) is Draft
}

/// Without the messages in the older form, all is the same but that none is held back.
proof fn lemma_rendered_without_older_form(values: Seq<JsonView>, tool_aware: bool)
    ensures
        rendered(values, tool_aware) == (RenderingView {
            old: rendered(values, tool_aware).old,
            ..rendered(without_older_form(values, tool_aware), tool_aware)
        }),
        rendered(values, tool_aware).saw_message <==> exists|i: int|
            0 <= i < values.len() && is_message(#[trigger] values[i], tool_aware),
    decreases values.len(),
{
    let keeps = |value: JsonView| !is_older_form(tool_aware)(value);
    if values.len() == 0 {
        assert(without_older_form(values, tool_aware) =~= Seq::empty());
    } else {
        let front = values.drop_last();
        let value = values.last();
        lemma_rendered_without_older_form(front, tool_aware);
        assert(values =~= front.push(value));
        front.lemma_filter_push(value, keeps);
        let shorter = without_older_form(front, tool_aware);
        let kept = without_older_form(values, tool_aware);
        if keeps(value) {
            assert(kept == shorter.push(value));
            assert(kept.drop_last() =~= shorter);
            assert(kept.last() == value);
        } else {
            assert(kept == shorter);
        }
        if is_message(value, tool_aware) {
            assert(is_message(values[values.len() - 1], tool_aware));
        } else {
            if exists|i: int| 0 <= i < values.len() && is_message(#[trigger] values[i], tool_aware) {
                let i = choose|i: int|
                    0 <= i < values.len() && is_message(#[trigger] values[i], tool_aware);
                assert(front[i] == values[i]);
            }
            if rendered(front, tool_aware).saw_message {
                let i = choose|i: int|
                    0 <= i < front.len() && is_message(#[trigger] front[i], tool_aware);
                assert(values[i] == front[i]);
            }
        }
    }
}

/// Messages in the older form are rendered only where a transcript holds no other: where a message
/// occurs anywhere in it, what is rendered is the same as without them, wherever they stand.
pub proof fn law_older_form_is_a_fallback(values: Seq<JsonView>, tool_aware: bool, at: int)
    requires
        0 <= at < values.len(),
        is_message(values[at], tool_aware),
    ensures
        ({
            let with = finished(rendered(values, tool_aware), tool_aware);
            let without = finished(
                rendered(without_older_form(values, tool_aware), tool_aware),
                tool_aware,
            );
            &&& with.messages == without.messages
            &&& with.stats == without.stats
            &&& with.session_id == without.session_id
            &&& with.session_cwd == without.session_cwd
        }),
{
    lemma_rendered_without_older_form(values, tool_aware);
}

} // verus!
