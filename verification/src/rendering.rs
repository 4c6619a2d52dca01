//! What the lines of a transcript render to.
use crate::json::JsonView;
use crate::text;
use crate::transcript;
use crate::transcript::{EntryView, MessageView, ToolsView, MAX_TOOL_OUTPUT_CHARS};
use vstd::prelude::*;

verus! {

/// Taking white space off the ends of a text takes nothing else: what is left neither begins nor ends
/// with white space, and stands in the text between white space.
pub proof fn law_trim_takes_only_white_space(whole: Seq<char>) -> (at: int)
    ensures
        0 <= at,
        at + text::trim(whole).len() <= whole.len(),
        text::trim(whole) == whole.subrange(at, at + text::trim(whole).len()),
        forall|i: int| 0 <= i < at ==> text::white_space(#[trigger] whole[i]),
        forall|i: int|
            at + text::trim(whole).len() <= i < whole.len() ==> text::white_space(
                #[trigger] whole[i],
            ),
        text::trim(whole).len() > 0 ==> !text::white_space(text::trim(whole)[0])
            && !text::white_space(text::trim(whole).last()),
{
    let at = lemma_trim_start(whole);
    let rest = text::trim_start(whole);
    lemma_trim_end(rest);
    let kept = text::trim(whole);
    assert(kept == rest.take(kept.len() as int));
    assert(kept =~= whole.subrange(at, at + kept.len()));
    assert forall|i: int| at + kept.len() <= i < whole.len() implies text::white_space(
        #[trigger] whole[i],
    ) by {
        assert(whole[i] == rest[i - at]);
    }
    if kept.len() > 0 {
        assert(kept[0] == rest[0]);
    }
    at
}

proof fn lemma_trim_start(whole: Seq<char>) -> (at: int)
    ensures
        0 <= at <= whole.len(),
        text::trim_start(whole) == whole.skip(at),
        forall|i: int| 0 <= i < at ==> text::white_space(#[trigger] whole[i]),
        at < whole.len() ==> !text::white_space(whole[at]),
    decreases whole.len(),
{
    if whole.len() > 0 && text::white_space(whole[0]) {
        let rest = whole.subrange(1, whole.len() as int);
        let at = lemma_trim_start(rest);
        assert(whole.skip(at + 1) =~= rest.skip(at));
        assert forall|i: int| 0 <= i < at + 1 implies text::white_space(#[trigger] whole[i]) by {
            if i > 0 {
                assert(whole[i] == rest[i - 1]);
            }
        }
        if at + 1 < whole.len() {
            assert(whole[at + 1] == rest[at]);
        }
        at + 1
    } else {
        assert(whole.skip(0) =~= whole);
        0
    }
}

proof fn lemma_trim_end(whole: Seq<char>)
    ensures
        text::trim_end(whole).len() <= whole.len(),
        text::trim_end(whole) == whole.take(text::trim_end(whole).len() as int),
        forall|i: int|
            text::trim_end(whole).len() <= i < whole.len() ==> text::white_space(
                #[trigger] whole[i],
            ),
        text::trim_end(whole).len() > 0 ==> !text::white_space(text::trim_end(whole).last()),
    decreases whole.len(),
{
    if whole.len() > 0 && text::white_space(whole.last()) {
        let front = whole.drop_last();
        lemma_trim_end(front);
        let kept = text::trim_end(whole);
        assert(kept =~= whole.take(kept.len() as int));
        assert forall|i: int| kept.len() <= i < whole.len() implies text::white_space(
            #[trigger] whole[i],
        ) by {
            if i < front.len() {
                assert(whole[i] == front[i]);
            }
        }
    } else {
        assert(whole.take(whole.len() as int) =~= whole);
    }
}

/// What is left of a text that begins with another, once both are trimmed, begins with it too.
proof fn lemma_trim_prefix(first: Seq<char>, rest: Seq<char>)
    requires
        text::trim(first).len() > 0,
    ensures
        text::trim(first + rest).len() >= text::trim(first).len(),
        text::trim(first + rest).take(text::trim(first).len() as int) == text::trim(first),
{
    let whole = first + rest;
    let a = law_trim_takes_only_white_space(first);
    let b = law_trim_takes_only_white_space(whole);
    let short = text::trim(first);
    let long = text::trim(whole);
    assert(short[0] == first[a] && first[a] == whole[a]);
    assert(short.last() == first[a + short.len() - 1]);
    assert(whole[a + short.len() - 1] == first[a + short.len() - 1]);
    if b < a {
        if b + long.len() > b {
            assert(long[0] == whole[b] && whole[b] == first[b]);
        } else {
            assert(text::white_space(whole[a]));
        }
    } else if a < b {
        assert(text::white_space(whole[a]));
    }
    assert(a == b);
    if long.len() < short.len() {
        assert(text::white_space(whole[a + short.len() - 1]));
    }
    assert(long.take(short.len() as int) =~= short) by {
        assert forall|i: int| 0 <= i < short.len() implies long[i] == short[i] by {
            assert(long[i] == whole[b + i]);
            assert(short[i] == first[a + i]);
        }
    }
}

proof fn lemma_join_begins(parts: Seq<Seq<char>>, separator: Seq<char>) -> (rest: Seq<char>)
    requires
        parts.len() > 0,
    ensures
        text::join(parts, separator) == parts[0] + rest,
    decreases parts.len(),
{
    if parts.len() == 1 {
        assert(parts[0] + Seq::<char>::empty() =~= parts[0]);
        Seq::empty()
    } else {
        let front = parts.drop_last();
        let inner = lemma_join_begins(front, separator);
        let rest = inner + separator + parts.last();
        assert(text::join(parts, separator) =~= parts[0] + rest);
        rest
    }
}

/// A tool's output is kept whole up to its longest length; a longer one keeps its beginning, and says
/// that it was cut.
pub proof fn law_long_output_keeps_its_beginning(output: Seq<char>)
    ensures
        output.len() <= MAX_TOOL_OUTPUT_CHARS ==> transcript::truncated(output) == (output, false),
        output.len() > MAX_TOOL_OUTPUT_CHARS ==> {
            let kept = transcript::truncated(output);
            &&& kept.1
            &&& kept.0.len() > MAX_TOOL_OUTPUT_CHARS
            &&& kept.0.take(MAX_TOOL_OUTPUT_CHARS as int) == output.take(
                MAX_TOOL_OUTPUT_CHARS as int,
            )
            &&& kept.0.skip(MAX_TOOL_OUTPUT_CHARS as int) == "... (truncated)"@
        },
{
    if output.len() > MAX_TOOL_OUTPUT_CHARS {
        let kept = transcript::truncated(output).0;
        reveal_strlit("... (truncated)");
        assert(kept.take(MAX_TOOL_OUTPUT_CHARS as int) =~= output.take(
            MAX_TOOL_OUTPUT_CHARS as int,
        ));
        assert(kept.skip(MAX_TOOL_OUTPUT_CHARS as int) =~= "... (truncated)"@);
    }
}

/// Whether a block says that a tool was used on this input.
pub open spec fn is_use(block: JsonView, name: Seq<char>, input: JsonView) -> bool {
    &&& block matches JsonView::Object(members)
    &&& members.dom() == set!["type"@, "name"@, "input"@]
    &&& members["type"@] == JsonView::Text("tool_use"@)
    &&& members["name"@] == JsonView::Text(name)
    &&& members["input"@] == input
}

/// Whether a block holds this as what a tool returned.
pub open spec fn is_result(block: JsonView, content: Seq<char>) -> bool {
    &&& block matches JsonView::Object(members)
    &&& members.dom() == set!["type"@, "content"@]
    &&& members["type"@] == JsonView::Text("tool_result"@)
    &&& members["content"@] == JsonView::Text(content)
}

proof fn lemma_names_differ()
    ensures
        "type"@ != "name"@,
        "type"@ != "input"@,
        "name"@ != "input"@,
        "type"@ != "content"@,
        "type"@ != "text"@,
{
    reveal_strlit("type");
    reveal_strlit("name");
    reveal_strlit("input");
    reveal_strlit("content");
    reveal_strlit("text");
    assert("type"@[0] == 't');
    assert("name"@[0] == 'n');
    assert("input"@[0] == 'i');
    assert("content"@[0] == 'c');
    assert("type"@[1] == 'y');
    assert("text"@[1] == 'e');
}

proof fn lemma_use_block(name: Seq<char>, input: JsonView)
    ensures
        is_use(transcript::use_block(name, input), name, input),
{
    lemma_names_differ();
    let block = transcript::use_block(name, input);
    assert(block->Object_0.dom() =~= set!["type"@, "name"@, "input"@]);
}

proof fn lemma_result_block(content: Seq<char>)
    ensures
        is_result(transcript::result_block(content), content),
{
    lemma_names_differ();
    let block = transcript::result_block(content);
    assert(block->Object_0.dom() =~= set!["type"@, "content"@]);
}

/// A finished command tells of one use of the shell, on the command that was run. Where it printed
/// anything but white space, it tells of one result too, and the result begins with what was printed,
/// as far as a result may be long.
pub proof fn law_command_output_is_rendered(members: Map<Seq<char>, JsonView>, output: Seq<char>)
    requires
        members.dom().contains("aggregated_output"@),
        members["aggregated_output"@] == JsonView::Text(output),
        text::trim(output).len() > 0,
    ensures
        ({
            let told = transcript::event_tools("exec_command_end"@, JsonView::Object(members));
            &&& told.calls == 1
            &&& told.results == 1
            &&& told.blocks.len() == 2
            &&& exists|content: Seq<char>|
                {
                    &&& #[trigger] is_result(told.blocks[1], content)
                    &&& forall|i: int|
                        0 <= i < text::trim(output).len() && i < MAX_TOOL_OUTPUT_CHARS ==> i
                            < content.len() && #[trigger] content[i] == text::trim(output)[i]
                }
        }),
{
    let payload = JsonView::Object(members);
    let parts = transcript::command_report(payload);
    let _ = law_trim_takes_only_white_space(output);
    assert(parts[0] == output);
    let rest = lemma_join_begins(parts, "\n"@);
    lemma_trim_prefix(output, rest);
    let whole = text::trim(text::join(parts, "\n"@));
    let content = transcript::truncated(whole).0;
    law_long_output_keeps_its_beginning(whole);
    lemma_result_block(content);
    let told = transcript::event_tools("exec_command_end"@, payload);
    assert(told.blocks[1] == transcript::result_block(content));
    assert forall|i: int|
        0 <= i < text::trim(output).len() && i < MAX_TOOL_OUTPUT_CHARS implies i < content.len()
        && #[trigger] content[i] == text::trim(output)[i] by {
        assert(whole[i] == whole.take(text::trim(output).len() as int)[i]);
        if whole.len() > MAX_TOOL_OUTPUT_CHARS {
            assert(content[i] == content.take(MAX_TOOL_OUTPUT_CHARS as int)[i]);
            assert(whole[i] == whole.take(MAX_TOOL_OUTPUT_CHARS as int)[i]);
        }
    }
}

/// What a tool returned is told as one result, without white space at its ends, where anything else
/// is left; a blank output tells nothing.
pub proof fn law_tool_result_holds_the_output(output: Seq<char>)
    ensures
        ({
            let told = transcript::tool_result(Some(output));
            let kept = text::trim(output);
            &&& told.calls == 0
            &&& kept.len() == 0 ==> told.blocks.len() == 0 && told.results == 0 && told.cut == 0
            &&& kept.len() > 0 ==> {
                &&& told.blocks.len() == 1
                &&& told.results == 1
                &&& told.cut == (if kept.len() > MAX_TOOL_OUTPUT_CHARS {
                    1nat
                } else {
                    0nat
                })
                &&& kept.len() <= MAX_TOOL_OUTPUT_CHARS ==> is_result(told.blocks[0], kept)
                &&& kept.len() > MAX_TOOL_OUTPUT_CHARS ==> is_result(
                    told.blocks[0],
                    kept.take(MAX_TOOL_OUTPUT_CHARS as int) + "... (truncated)"@,
                )
            }
        }),
{
    let kept = text::trim(output);
    lemma_result_block(transcript::truncated(kept).0);
}

/// Whether the result of a finished command begins with this, as far as a result may be long.
pub open spec fn result_begins(told: ToolsView, part: Seq<char>) -> bool {
    &&& told.results == 1
    &&& told.blocks.len() == 2
    &&& exists|content: Seq<char>|
        {
            &&& #[trigger] is_result(told.blocks[1], content)
            &&& forall|i: int|
                0 <= i < text::trim(part).len() && i < MAX_TOOL_OUTPUT_CHARS ==> i < content.len()
                    && #[trigger] content[i] == text::trim(part)[i]
        }
}

proof fn lemma_result_begins(payload: JsonView)
    requires
        transcript::command_report(payload).len() > 0,
        text::trim(transcript::command_report(payload)[0]).len() > 0,
    ensures
        result_begins(
            transcript::event_tools("exec_command_end"@, payload),
            transcript::command_report(payload)[0],
        ),
{
    let parts = transcript::command_report(payload);
    let first = parts[0];
    let rest = lemma_join_begins(parts, "\n"@);
    lemma_trim_prefix(first, rest);
    let whole = text::trim(text::join(parts, "\n"@));
    let content = transcript::truncated(whole).0;
    law_long_output_keeps_its_beginning(whole);
    lemma_result_block(content);
    let told = transcript::event_tools("exec_command_end"@, payload);
    assert(told.blocks[1] == transcript::result_block(content));
    assert forall|i: int|
        0 <= i < text::trim(first).len() && i < MAX_TOOL_OUTPUT_CHARS implies i < content.len()
        && #[trigger] content[i] == text::trim(first)[i] by {
        assert(whole[i] == whole.take(text::trim(first).len() as int)[i]);
        if whole.len() > MAX_TOOL_OUTPUT_CHARS {
            assert(content[i] == content.take(MAX_TOOL_OUTPUT_CHARS as int)[i]);
            assert(whole[i] == whole.take(MAX_TOOL_OUTPUT_CHARS as int)[i]);
        }
    }
}

proof fn lemma_starts_visible(whole: Seq<char>)
    requires
        whole.len() > 0,
        !text::white_space(whole[0]),
    ensures
        text::trim(whole).len() > 0,
{
    let at = law_trim_takes_only_white_space(whole);
    if text::trim(whole).len() == 0 {
        assert(text::white_space(whole[0]));
    }
}

/// A finished command that printed nothing is told by how it ended: by its exit code where that is not
/// zero, else by its status where it is not completed; and one that ended well, silently, has no
/// result. The use of the shell is told in any case, with the command as it stands.
pub proof fn law_silent_command_is_told_by_its_end(
    members: Map<Seq<char>, JsonView>,
    code: u64,
    status: Seq<char>,
)
    requires
        !members.dom().contains("aggregated_output"@) || members["aggregated_output"@]
            == JsonView::Text(Seq::empty()),
        members.dom().contains("exit_code"@),
        members["exit_code"@] == JsonView::Unsigned(code),
        code <= i64::MAX,
        members.dom().contains("status"@),
        members["status"@] == JsonView::Text(status),
    ensures
        ({
            let told = transcript::event_tools("exec_command_end"@, JsonView::Object(members));
            &&& told.calls == 1
            &&& code != 0 ==> result_begins(told, "exit_code: "@ + text::decimal(code as nat))
            &&& code == 0 && status != "completed"@ ==> result_begins(told, "status: "@ + status)
            &&& code == 0 && status == "completed"@ ==> told.results == 0 && told.blocks.len() == 1
        }),
{
    let payload = JsonView::Object(members);
    let parts = transcript::command_report(payload);
    reveal_strlit("exit_code: ");
    reveal_strlit("status: ");
    if code != 0 {
        let part = "exit_code: "@ + text::decimal(code as nat);
        assert(parts[0] == part);
        assert(part[0] == 'e');
        lemma_starts_visible(part);
        lemma_result_begins(payload);
    } else if status != "completed"@ {
        let part = "status: "@ + status;
        assert(parts[0] == part);
        assert(part[0] == 's');
        lemma_starts_visible(part);
        lemma_result_begins(payload);
    } else {
        assert(parts.len() == 0);
    }
}

/// A finished command tells the command that was run, as the input of the shell.
pub proof fn law_command_is_told_as_it_was_run(members: Map<Seq<char>, JsonView>, command: JsonView)
    requires
        members.dom().contains("command"@),
        members["command"@] == command,
    ensures
        ({
            let told = transcript::event_tools("exec_command_end"@, JsonView::Object(members));
            &&& told.blocks.len() >= 1
            &&& is_use(
                told.blocks[0],
                "shell"@,
                JsonView::Object(Map::<Seq<char>, JsonView>::empty().insert("command"@, command)),
            )
        }),
{
    let input = transcript::single("command"@, command);
    lemma_use_block("shell"@, input);
    let told = transcript::event_tools("exec_command_end"@, JsonView::Object(members));
    assert(told.blocks[0] == transcript::use_block("shell"@, input));
}

proof fn lemma_kinds_differ()
    ensures
        "local_shell_call"@ != "function_call"@,
        "local_shell_call"@ != "custom_tool_call"@,
        "local_shell_call"@ != "function_call_output"@,
        "local_shell_call"@ != "custom_tool_call_output"@,
        "local_shell_call"@ != "web_search_call"@,
        "function_call"@ != "custom_tool_call"@,
        "function_call"@ != "function_call_output"@,
        "function_call"@ != "custom_tool_call_output"@,
        "function_call"@ != "web_search_call"@,
        "custom_tool_call"@ != "function_call_output"@,
        "custom_tool_call"@ != "custom_tool_call_output"@,
        "custom_tool_call"@ != "web_search_call"@,
        "web_search_call"@ != "function_call_output"@,
        "web_search_call"@ != "custom_tool_call_output"@,
        "exec_command_end"@ != "patch_apply_end"@,
        "exec_command_end"@ != "mcp_tool_call_end"@,
        "patch_apply_end"@ != "mcp_tool_call_end"@,
{
    reveal_strlit("local_shell_call");
    reveal_strlit("function_call");
    reveal_strlit("custom_tool_call");
    reveal_strlit("function_call_output");
    reveal_strlit("custom_tool_call_output");
    reveal_strlit("web_search_call");
    reveal_strlit("exec_command_end");
    reveal_strlit("patch_apply_end");
    reveal_strlit("mcp_tool_call_end");
    assert("local_shell_call"@[0] == 'l');
    assert("function_call"@[0] == 'f');
    assert("function_call_output"@[0] == 'f');
    assert("custom_tool_call"@[0] == 'c');
    assert("custom_tool_call_output"@[0] == 'c');
    assert("web_search_call"@[0] == 'w');
    assert("function_call"@.len() != "function_call_output"@.len());
    assert("custom_tool_call"@.len() != "custom_tool_call_output"@.len());
    assert("exec_command_end"@[0] == 'e');
    assert("patch_apply_end"@[0] == 'p');
    assert("mcp_tool_call_end"@[0] == 'm');
}

/// A call of a function, or of a custom tool, tells the name of the tool and its input: the value that
/// the raw text reads as, or the raw text where it reads as none.
pub proof fn law_call_tells_its_tool_and_input(
    members: Map<Seq<char>, JsonView>,
    custom: bool,
    name: Seq<char>,
    raw: Seq<char>,
)
    requires
        members.dom().contains("name"@),
        members["name"@] == JsonView::Text(name),
        members.dom().contains(
            if custom {
                "input"@
            } else {
                "arguments"@
            },
        ),
        members[if custom {
            "input"@
        } else {
            "arguments"@
        }] == JsonView::Text(raw),
    ensures
        ({
            let kind = if custom {
                "custom_tool_call"@
            } else {
                "function_call"@
            };
            let told = transcript::response_tools(kind, JsonView::Object(members));
            &&& told.calls == 1
            &&& told.results == 0
            &&& told.blocks.len() == 1
            &&& match crate::json::json_of_text(raw) {
                Ok(value) => is_use(told.blocks[0], name, value),
                Err(_) => is_use(
                    told.blocks[0],
                    name,
                    JsonView::Object(
                        Map::<Seq<char>, JsonView>::empty().insert("raw"@, JsonView::Text(raw)),
                    ),
                ),
            }
        }),
{
    lemma_kinds_differ();
    lemma_use_block(name, transcript::tool_input(Some(raw)));
}

/// The output of a function, or of a custom tool, that is a text is told as one result, whole but for
/// white space at its ends, as far as a result may be long.
pub proof fn law_call_output_is_rendered(
    members: Map<Seq<char>, JsonView>,
    custom: bool,
    output: Seq<char>,
)
    requires
        members.dom().contains("output"@),
        members["output"@] == JsonView::Text(output),
        text::trim(output).len() > 0,
    ensures
        ({
            let kind = if custom {
                "custom_tool_call_output"@
            } else {
                "function_call_output"@
            };
            let told = transcript::response_tools(kind, JsonView::Object(members));
            let kept = text::trim(output);
            &&& told.calls == 0
            &&& told.results == 1
            &&& told.blocks.len() == 1
            &&& kept.len() <= MAX_TOOL_OUTPUT_CHARS ==> is_result(told.blocks[0], kept)
            &&& kept.len() > MAX_TOOL_OUTPUT_CHARS ==> is_result(
                told.blocks[0],
                kept.take(MAX_TOOL_OUTPUT_CHARS as int) + "... (truncated)"@,
            )
        }),
{
    lemma_kinds_differ();
    let kept = text::trim(output);
    lemma_trim_again(output);
    lemma_result_block(transcript::truncated(kept).0);
}

proof fn lemma_trim_again(whole: Seq<char>)
    ensures
        text::trim(text::trim(whole)) == text::trim(whole),
{
    let kept = text::trim(whole);
    let a = law_trim_takes_only_white_space(whole);
    let b = law_trim_takes_only_white_space(kept);
    let again = text::trim(kept);
    if kept.len() > 0 {
        if b > 0 {
            assert(text::white_space(kept[0]));
        }
        if b + again.len() < kept.len() {
            assert(text::white_space(kept[kept.len() - 1]));
        }
    }
    assert(again =~= kept);
}

/// A shell call and a web search tell their tool and what it was used on; a search for nothing tells
/// nothing.
pub proof fn law_shell_and_search_are_told(
    members: Map<Seq<char>, JsonView>,
    action: Map<Seq<char>, JsonView>,
    command: JsonView,
    query: Seq<char>,
)
    requires
        members.dom().contains("action"@),
        members["action"@] == JsonView::Object(action),
        action.dom().contains("command"@),
        action["command"@] == command,
        action.dom().contains("query"@),
        action["query"@] == JsonView::Text(query),
    ensures
        ({
            let shell = transcript::response_tools("local_shell_call"@, JsonView::Object(members));
            let search = transcript::response_tools("web_search_call"@, JsonView::Object(members));
            let blank = Map::<Seq<char>, JsonView>::empty();
            &&& shell.calls == 1
            &&& shell.results == 0
            &&& shell.blocks.len() == 1
            &&& is_use(
                shell.blocks[0],
                "shell"@,
                JsonView::Object(blank.insert("command"@, command)),
            )
            &&& query.len() == 0 ==> search.calls == 0 && search.blocks.len() == 0
            &&& query.len() > 0 ==> {
                &&& search.calls == 1
                &&& search.results == 0
                &&& search.blocks.len() == 1
                &&& is_use(
                    search.blocks[0],
                    "web_search"@,
                    JsonView::Object(blank.insert("query"@, JsonView::Text(query))),
                )
            }
        }),
{
    lemma_kinds_differ();
    lemma_use_block("shell"@, transcript::single("command"@, command));
    lemma_use_block("web_search"@, transcript::single("query"@, JsonView::Text(query)));
}

/// An applied patch tells its changes and how it ended; one that changed nothing tells nothing.
pub proof fn law_patch_is_told(
    members: Map<Seq<char>, JsonView>,
    changes: Seq<JsonView>,
    status: Seq<char>,
)
    requires
        members.dom().contains("changes"@),
        members["changes"@] == JsonView::Array(changes),
        members.dom().contains("status"@),
        members["status"@] == JsonView::Text(status),
    ensures
        ({
            let told = transcript::event_tools("patch_apply_end"@, JsonView::Object(members));
            &&& changes.len() == 0 ==> told.calls == 0 && told.results == 0 && told.blocks.len() == 0
            &&& changes.len() > 0 ==> {
                &&& told.calls == 1
                &&& is_use(
                    told.blocks[0],
                    "patch"@,
                    JsonView::Object(
                        Map::<Seq<char>, JsonView>::empty().insert(
                            "changes"@,
                            JsonView::Array(changes),
                        ),
                    ),
                )
                &&& result_begins(told, "status: "@ + status)
            }
        }),
{
    lemma_kinds_differ();
    if changes.len() > 0 {
        let input = transcript::single("changes"@, JsonView::Array(changes));
        let part = "status: "@ + status;
        reveal_strlit("status: ");
        assert(part[0] == 's');
        lemma_starts_visible(part);
        lemma_use_block("patch"@, input);
        let whole = text::trim(part);
        let content = transcript::truncated(whole).0;
        law_long_output_keeps_its_beginning(whole);
        lemma_result_block(content);
        let told = transcript::event_tools("patch_apply_end"@, JsonView::Object(members));
        assert(told.blocks[0] == transcript::use_block("patch"@, input));
        assert(told.blocks[1] == transcript::result_block(content));
        assert forall|i: int| 0 <= i < whole.len() && i < MAX_TOOL_OUTPUT_CHARS implies i
            < content.len() && #[trigger] content[i] == whole[i] by {
            if whole.len() > MAX_TOOL_OUTPUT_CHARS {
                assert(content[i] == content.take(MAX_TOOL_OUTPUT_CHARS as int)[i]);
                assert(whole[i] == whole.take(MAX_TOOL_OUTPUT_CHARS as int)[i]);
            }
        }
    }
}

/// A tool server's result that is a text, or has one as its content, is told as one result, whole but
/// for white space at its ends, as far as a result may be long.
pub proof fn law_tool_server_result_is_rendered(
    members: Map<Seq<char>, JsonView>,
    nested: bool,
    output: Seq<char>,
)
    requires
        members.dom().contains("result"@),
        members["result"@] == (if nested {
            JsonView::Object(
                Map::<Seq<char>, JsonView>::empty().insert("content"@, JsonView::Text(output)),
            )
        } else {
            JsonView::Text(output)
        }),
        0 < text::trim(output).len() <= MAX_TOOL_OUTPUT_CHARS,
    ensures
        ({
            let told = transcript::event_tools("mcp_tool_call_end"@, JsonView::Object(members));
            &&& told.calls == 0
            &&& told.results == 1
            &&& told.blocks.len() == 1
            &&& is_result(told.blocks[0], text::trim(output))
        }),
{
    lemma_kinds_differ();
    lemma_result_block(text::trim(output));
}

/// The text that a content block holds, where it is one of a message.
pub open spec fn block_text(item: JsonView) -> Option<Seq<char>> {
    match item {
        JsonView::Object(members) => if members.dom().contains("type"@) && (members["type"@]
            == JsonView::Text("input_text"@) || members["type"@] == JsonView::Text("output_text"@))
            && members.dom().contains("text"@) {
            match members["text"@] {
                JsonView::Text(text) => Some(text),
                _ => None,
            }
        } else {
            None
        },
        _ => None,
    }
}

proof fn lemma_join_push(parts: Seq<Seq<char>>, part: Seq<char>, separator: Seq<char>)
    ensures
        text::join(parts.push(part), separator) == (if parts.len() == 0 {
            part
        } else {
            text::join(parts, separator) + separator + part
        }),
{
    assert(parts.push(part).drop_last() =~= parts);
}

proof fn lemma_join_nonempty(parts: Seq<Seq<char>>, separator: Seq<char>)
    requires
        parts.len() > 0,
        parts[0].len() > 0,
    ensures
        text::join(parts, separator).len() > 0,
{
    let _ = lemma_join_begins(parts, separator);
}

proof fn lemma_tidied(texts: Seq<Seq<char>>)
    ensures
        forall|i: int|
            0 <= i < transcript::tidied(texts).len() ==> (
            #[trigger] transcript::tidied(texts)[i]).len() > 0,
    decreases texts.len(),
{
    if texts.len() > 0 {
        let inner = transcript::tidied(texts.drop_last());
        lemma_tidied(texts.drop_last());
        assert forall|i: int| 0 <= i < transcript::tidied(texts).len() implies (
        #[trigger] transcript::tidied(texts)[i]).len() > 0 by {
            if i < inner.len() {
                assert(transcript::tidied(texts)[i] == inner[i]);
            }
        }
    }
}

/// The text of a message's content is made of the texts of its blocks, in order, one per line, without
/// white space at their ends. One more block adds its text where it is a message text that is not
/// blank, and nothing else; without blocks there is no text.
pub proof fn law_content_is_the_text_of_its_blocks(items: Seq<JsonView>, item: JsonView)
    ensures
        transcript::content_text(Some(JsonView::Array(Seq::empty()))).len() == 0,
        ({
            let before = transcript::content_text(Some(JsonView::Array(items)));
            let after = transcript::content_text(Some(JsonView::Array(items.push(item))));
            match block_text(item) {
                Some(part) => if text::trim(part).len() == 0 {
                    after == before
                } else if before.len() == 0 {
                    after == text::trim(part)
                } else {
                    after == before + "\n"@ + text::trim(part)
                },
                None => after == before,
            }
        }),
{
    let texts = transcript::typed_texts(items, "input_text"@, "output_text"@);
    let parts = transcript::tidied(texts);
    assert(items.push(item).drop_last() =~= items);
    assert(items.push(item).last() == item);
    lemma_tidied(texts);
    if parts.len() > 0 {
        lemma_join_nonempty(parts, "\n"@);
    }
    if let Some(part) = block_text(item) {
        let more = texts.push(part);
        assert(transcript::typed_texts(items.push(item), "input_text"@, "output_text"@) == more);
        assert(more.drop_last() =~= texts);
        lemma_join_push(parts, text::trim(part), "\n"@);
    } else {
        assert(transcript::typed_texts(items.push(item), "input_text"@, "output_text"@) == texts);
    }
}

proof fn lemma_line_kinds_differ()
    ensures
        "session_meta"@ != "response_item"@,
        "session_meta"@ != "event_msg"@,
        "response_item"@ != "event_msg"@,
        "user"@ != "assistant"@,
        "user_message"@ != "agent_message"@,
{
    reveal_strlit("session_meta");
    reveal_strlit("response_item");
    reveal_strlit("event_msg");
    reveal_strlit("user");
    reveal_strlit("assistant");
    reveal_strlit("user_message");
    reveal_strlit("agent_message");
    assert("session_meta"@[0] == 's');
    assert("response_item"@[0] == 'r');
    assert("event_msg"@[0] == 'e');
    assert("user"@[0] == 'u');
    assert("assistant"@[0] == 'a');
    assert("user_message"@[0] == 'u');
    assert("agent_message"@[0] == 'a');
}

/// A line that holds a message is a message of its role, with the text of its content: every one of the
/// user's, and those of the assistant that are final answers. Any other of the assistant's is only
/// counted. A message of another role is none.
pub proof fn law_message_line_is_a_message(
    line: Map<Seq<char>, JsonView>,
    payload: Map<Seq<char>, JsonView>,
    role: Seq<char>,
    items: Seq<JsonView>,
    tool_aware: bool,
)
    requires
        line.dom().contains("type"@),
        line["type"@] == JsonView::Text("response_item"@),
        line.dom().contains("payload"@),
        line["payload"@] == JsonView::Object(payload),
        payload.dom().contains("type"@),
        payload["type"@] == JsonView::Text("message"@),
        payload.dom().contains("role"@),
        payload["role"@] == JsonView::Text(role),
        payload.dom().contains("content"@),
        payload["content"@] == JsonView::Array(items),
    ensures
        ({
            let entry = transcript::entry_of(JsonView::Object(line), tool_aware);
            let text = transcript::content_text(Some(JsonView::Array(items)));
            let is_final = payload.dom().contains("phase"@) && payload["phase"@] == JsonView::Text(
                "final_answer"@,
            );
            &&& role == "user"@ ==> entry == (EntryView::Message { user: true, text })
            &&& role == "assistant"@ && is_final ==> entry == (EntryView::Message {
                user: false,
                text,
            })
            &&& role == "assistant"@ && !is_final ==> entry is Draft
            &&& role != "user"@ && role != "assistant"@ ==> entry is Skip
        }),
{
    lemma_line_kinds_differ();
}

/// A line that holds an event message is a message in the older form, of the user or of the agent, with
/// its text.
pub proof fn law_event_line_is_an_older_message(
    line: Map<Seq<char>, JsonView>,
    payload: Map<Seq<char>, JsonView>,
    user: bool,
    text: Seq<char>,
    tool_aware: bool,
)
    requires
        line.dom().contains("type"@),
        line["type"@] == JsonView::Text("event_msg"@),
        line.dom().contains("payload"@),
        line["payload"@] == JsonView::Object(payload),
        payload.dom().contains("type"@),
        payload["type"@] == JsonView::Text(
            if user {
                "user_message"@
            } else {
                "agent_message"@
            },
        ),
        payload.dom().contains("message"@),
        payload["message"@] == JsonView::Text(text),
    ensures
        transcript::entry_of(JsonView::Object(line), tool_aware) == (EntryView::Event {
            user,
            text,
        }),
{
    lemma_line_kinds_differ();
}

/// A line of another kind, with a role and a text as its content, is a message of that role with that
/// text as it stands.
pub proof fn law_bare_line_is_a_message(
    line: Map<Seq<char>, JsonView>,
    user: bool,
    text: Seq<char>,
    tool_aware: bool,
)
    requires
        !line.dom().contains("type"@),
        line.dom().contains("role"@),
        line["role"@] == JsonView::Text(
            if user {
                "user"@
            } else {
                "assistant"@
            },
        ),
        line.dom().contains("content"@),
        line["content"@] == JsonView::Text(text),
    ensures
        transcript::entry_of(JsonView::Object(line), tool_aware) == (EntryView::Message {
            user,
            text,
        }),
{
    lemma_line_kinds_differ();
}

/// A session line names the session, by its session id or else its id, and where it works; the last one
/// counts, and no other line changes either.
pub proof fn law_session_line_names_the_session(
    values: Seq<JsonView>,
    line: Map<Seq<char>, JsonView>,
    payload: Map<Seq<char>, JsonView>,
    id: Seq<char>,
    cwd: Seq<char>,
    tool_aware: bool,
)
    requires
        line.dom().contains("type"@),
        line["type"@] == JsonView::Text("session_meta"@),
        line.dom().contains("payload"@),
        line["payload"@] == JsonView::Object(payload),
        payload.dom().contains("session_id"@) || payload.dom().contains("id"@),
        payload[if payload.dom().contains("session_id"@) {
            "session_id"@
        } else {
            "id"@
        }] == JsonView::Text(id),
        payload.dom().contains("cwd"@),
        payload["cwd"@] == JsonView::Text(cwd),
    ensures
        ({
            let before = transcript::rendered(values, tool_aware);
            let after = transcript::rendered(values.push(JsonView::Object(line)), tool_aware);
            &&& after.session_id == Some(id)
            &&& after.session_cwd == Some(cwd)
            &&& after.messages == before.messages
            &&& after.blocks == before.blocks
            &&& after.stats == before.stats
        }),
{
    lemma_line_kinds_differ();
    assert(values.push(JsonView::Object(line)).drop_last() =~= values);
}

/// Whether a message is one text of this role, at this time.
pub open spec fn is_text_message(
    message: MessageView,
    user: bool,
    text: Seq<char>,
    timestamp: Option<Seq<char>>,
) -> bool {
    &&& message.user == user
    &&& message.timestamp == timestamp
    &&& message.content.len() == 1
    &&& is_text(message.content[0], text)
}

/// Whether a block holds this text.
pub open spec fn is_text(block: JsonView, text: Seq<char>) -> bool {
    &&& block matches JsonView::Object(members)
    &&& members.dom() == set!["type"@, "text"@]
    &&& members["type"@] == JsonView::Text("text"@)
    &&& members["text"@] == JsonView::Text(text)
}

proof fn lemma_text_block(text: Seq<char>)
    ensures
        is_text(transcript::text_block(text), text),
{
    lemma_names_differ();
    let block = transcript::text_block(text);
    assert(block->Object_0.dom() =~= set!["type"@, "text"@]);
}

/// The time that a line bears.
pub open spec fn line_time(value: JsonView) -> Option<Seq<char>> {
    match value {
        JsonView::Object(members) => if members.dom().contains("timestamp"@) {
            match members["timestamp"@] {
                JsonView::Text(time) => Some(time),
                _ => None,
            }
        } else {
            None
        },
        _ => None,
    }
}

/// In the message profile every line adds at most one message, behind those before it: a message adds
/// its text, freed of recalled memories, unless nothing but white space is left or it is the text that
/// a session starts with on its own. No other line adds or changes a message.
pub proof fn law_message_profile_adds_each_message(values: Seq<JsonView>, value: JsonView)
    ensures
        ({
            let before = transcript::rendered(values, false);
            let after = transcript::rendered(values.push(value), false);
            match transcript::entry_of(value, false) {
                EntryView::Message { user, text } => {
                    let clean = transcript::stripped(text).0;
                    &&& after.saw_message
                    &&& after.stats.source == before.stats.source + 1
                    &&& if text::trim(clean).len() == 0 || (user && transcript::synthetic(clean)) {
                        after.messages == before.messages
                    } else {
                        &&& after.messages.len() == before.messages.len() + 1
                        &&& after.messages.drop_last() == before.messages
                        &&& is_text_message(after.messages.last(), user, clean, line_time(value))
                    }
                },
                EntryView::Draft => after.messages == before.messages && after.saw_message
                    && after.stats.source == before.stats.source + 1,
                _ => after.messages == before.messages && after.saw_message == before.saw_message
                    && after.stats == before.stats,
            }
        }),
{
    assert(values.push(value).drop_last() =~= values);
    let before = transcript::rendered(values, false);
    let after = transcript::rendered(values.push(value), false);
    if let EntryView::Message { user, text } = transcript::entry_of(value, false) {
        lemma_text_block(transcript::stripped(text).0);
        assert(after.messages.len() > before.messages.len() ==> after.messages.drop_last()
            =~= before.messages);
    }
    lemma_no_tools_in_messages(value);
}

proof fn lemma_no_tools_in_messages(value: JsonView)
    ensures
        !(transcript::entry_of(value, false) is Tools),
{
}

/// In the tool-aware profile the assistant's texts and tools gather, in order, until the user speaks;
/// then they become one message of the assistant, before the user's own. Messages that stand are never
/// changed.
pub proof fn law_tool_aware_profile_gathers(values: Seq<JsonView>, value: JsonView)
    ensures
        ({
            let before = transcript::rendered(values, true);
            let after = transcript::rendered(values.push(value), true);
            let gathered = if before.blocks.len() == 0 {
                before.messages
            } else {
                before.messages.push(
                    (MessageView {
                        user: false,
                        content: before.blocks,
                        timestamp: before.blocks_time,
                    }),
                )
            };
            match transcript::entry_of(value, true) {
                EntryView::Message { user, text } => {
                    let clean = transcript::stripped(text).0;
                    if text::trim(clean).len() == 0 || (user && transcript::synthetic(clean)) {
                        after.messages == before.messages && after.blocks == before.blocks
                    } else if user {
                        &&& after.messages.len() == gathered.len() + 1
                        &&& after.messages.drop_last() == gathered
                        &&& is_text_message(after.messages.last(), true, clean, line_time(value))
                        &&& after.blocks.len() == 0
                    } else {
                        &&& after.messages == before.messages
                        &&& after.blocks.len() == before.blocks.len() + 1
                        &&& after.blocks.drop_last() == before.blocks
                        &&& is_text(after.blocks.last(), clean)
                        &&& after.blocks_time == line_time(value)
                    }
                },
                EntryView::Tools { tools } => {
                    &&& after.messages == before.messages
                    &&& after.blocks == before.blocks + tools.blocks
                    &&& after.stats.calls == before.stats.calls + tools.calls
                    &&& after.stats.results == before.stats.results + tools.results
                    &&& after.stats.cut == before.stats.cut + tools.cut
                },
                _ => after.messages == before.messages && after.blocks == before.blocks,
            }
        }),
        ({
            let s = transcript::rendered(values, true);
            let done = transcript::finished(s, true);
            s.saw_message ==> if s.blocks.len() == 0 {
                done.messages == s.messages
            } else {
                &&& done.messages.len() == s.messages.len() + 1
                &&& done.messages.drop_last() == s.messages
                &&& !done.messages.last().user
                &&& done.messages.last().content == s.blocks
                &&& done.messages.last().timestamp == s.blocks_time
            }
        }),
{
    assert(values.push(value).drop_last() =~= values);
    let before = transcript::rendered(values, true);
    let after = transcript::rendered(values.push(value), true);
    if let EntryView::Message { user, text } = transcript::entry_of(value, true) {
        let clean = transcript::stripped(text).0;
        lemma_text_block(clean);
        if user {
            assert(after.messages.len() > before.messages.len() ==> after.messages.drop_last()
                =~= transcript::flushed(before).messages);
        } else {
            assert(after.blocks.len() > before.blocks.len() ==> after.blocks.drop_last()
                =~= before.blocks);
        }
    }
    if before.blocks.len() > 0 {
        let done = transcript::flushed(before);
        assert(done.messages.drop_last() =~= before.messages);
    }
}

/// A rendered transcript holds its messages as a JSON array, in order: of each the role, the content,
/// and the time where it has one. It counts them, bears the session that the lines named and the time
/// of the last message that has one, and is refused exactly where there is no message.
pub proof fn law_reference_transcript_holds_its_messages(values: Seq<JsonView>, tool_aware: bool)
    ensures
        ({
            let s = transcript::finished(transcript::rendered(values, tool_aware), tool_aware);
            match transcript::reference_transcript(values, tool_aware) {
                Err(_) => s.messages.len() == 0,
                Ok(made) => {
                    &&& s.messages.len() > 0
                    &&& made.stats.included == s.messages.len()
                    &&& made.stats.source == s.stats.source
                    &&& made.stats.results == s.stats.results
                    &&& made.session_id == s.session_id
                    &&& made.session_cwd == s.session_cwd
                    &&& exists|items: Seq<JsonView>|
                        {
                            &&& made.content == #[trigger] crate::json::json_text(
                                JsonView::Array(items),
                            )
                            &&& items.len() == s.messages.len()
                            &&& forall|i: int|
                                0 <= i < items.len() ==> is_message_json(
                                    #[trigger] items[i],
                                    s.messages[i],
                                )
                        }
                    &&& forall|i: int|
                        #![trigger s.messages[i]]
                        0 <= i < s.messages.len() && s.messages[i].timestamp is Some && (forall|
                            j: int,
                        |
                            i < j < s.messages.len() ==> (
                            #[trigger] s.messages[j]).timestamp is None) ==> made.last_timestamp
                            == s.messages[i].timestamp
                    &&& (forall|i: int|
                        0 <= i < s.messages.len() ==> (#[trigger] s.messages[i]).timestamp is None)
                        ==> made.last_timestamp is None
                },
            }
        }),
{
    let s = transcript::finished(transcript::rendered(values, tool_aware), tool_aware);
    lemma_last_time(s.messages);
    if s.messages.len() > 0 {
        let items = s.messages.map_values(|m: MessageView| transcript::message_json(m));
        assert forall|i: int| 0 <= i < items.len() implies is_message_json(
            #[trigger] items[i],
            s.messages[i],
        ) by {
            lemma_message_json(s.messages[i]);
        }
        let made = transcript::reference_transcript(values, tool_aware)->Ok_0;
        assert(made.content == crate::json::json_text(JsonView::Array(items)));
    }
}

/// Whether a value is a message as JSON.
pub open spec fn is_message_json(value: JsonView, message: MessageView) -> bool {
    &&& value matches JsonView::Object(members)
    &&& members.dom().contains("role"@)
    &&& members["role"@] == JsonView::Text(
        if message.user {
            "user"@
        } else {
            "assistant"@
        },
    )
    &&& members.dom().contains("content"@)
    &&& members["content"@] == JsonView::Array(message.content)
    &&& members.dom().contains("timestamp"@) == message.timestamp is Some
    &&& message.timestamp matches Some(time) ==> members["timestamp"@] == JsonView::Text(time)
}

proof fn lemma_message_json(message: MessageView)
    ensures
        is_message_json(transcript::message_json(message), message),
{
    reveal_strlit("role");
    reveal_strlit("content");
    reveal_strlit("timestamp");
    assert("role"@[0] == 'r');
    assert("content"@[0] == 'c');
    assert("timestamp"@[0] == 't');
}

proof fn lemma_last_time(messages: Seq<MessageView>)
    ensures
        forall|i: int|
            #![trigger messages[i]]
            0 <= i < messages.len() && messages[i].timestamp is Some && (forall|j: int|
                i < j < messages.len() ==> (#[trigger] messages[j]).timestamp is None)
                ==> transcript::last_time(messages) == messages[i].timestamp,
        (forall|i: int| 0 <= i < messages.len() ==> (#[trigger] messages[i]).timestamp is None)
            ==> transcript::last_time(messages) is None,
    decreases messages.len(),
{
    if messages.len() > 0 {
        let front = messages.drop_last();
        lemma_last_time(front);
        assert(messages[messages.len() - 1] == messages.last());
        assert forall|i: int|
            #![trigger messages[i]]
            0 <= i < messages.len() && messages[i].timestamp is Some && (forall|j: int|
                i < j < messages.len() ==> (
                #[trigger] messages[j]).timestamp is None) implies transcript::last_time(messages)
            == messages[i].timestamp by {
            if i < front.len() {
                assert(messages[messages.len() - 1].timestamp is None);
                assert(front[i] == messages[i]);
                assert forall|j: int| i < j < front.len() implies (
                #[trigger] front[j]).timestamp is None by {
                    assert(messages[j] == front[j]);
                }
            }
        }
        if forall|i: int| 0 <= i < messages.len() ==> (#[trigger] messages[i]).timestamp is None {
            assert forall|i: int| 0 <= i < front.len() implies (
            #[trigger] front[i]).timestamp is None by {
                assert(messages[i] == front[i]);
            }
        }
    }
}

/// In the legacy profile every message in the older form that is not blank adds one part, behind those
/// before it: who spoke, when, and the text. No other line adds one.
pub proof fn law_legacy_profile_adds_each_older_message(values: Seq<JsonView>, value: JsonView)
    ensures
        ({
            let before = transcript::legacy_rendered(values);
            let after = transcript::legacy_rendered(values.push(value));
            match transcript::entry_of(value, false) {
                EntryView::Event { user, text } => if text::trim(text).len() == 0 {
                    after == before
                } else {
                    &&& after.parts.len() == before.parts.len() + 1
                    &&& after.parts.drop_last() == before.parts
                    &&& after.parts.last() == (if user {
                        "User"@
                    } else {
                        "Assistant"@
                    }) + " ("@ + (match line_time(value) {
                        Some(time) => time,
                        None => "unknown time"@,
                    }) + "): "@ + text
                    &&& after.session_id == before.session_id
                    &&& line_time(value) is Some ==> after.last_timestamp == line_time(value)
                    &&& line_time(value) is None ==> after.last_timestamp == before.last_timestamp
                },
                EntryView::Session { id, cwd } => after.parts == before.parts && after.session_id
                    == id && after.session_cwd == cwd,
                _ => after == before,
            }
        }),
{
    assert(values.push(value).drop_last() =~= values);
    let before = transcript::legacy_rendered(values);
    let after = transcript::legacy_rendered(values.push(value));
    if after.parts.len() > before.parts.len() {
        assert(after.parts.drop_last() =~= before.parts);
    }
}

proof fn lemma_first_at(whole: Seq<char>, part: Seq<char>, from: int, at: int)
    requires
        0 <= from <= at,
        text::occurs_at(whole, part, at),
        forall|j: int| from <= j < at ==> !#[trigger] text::occurs_at(whole, part, j),
    ensures
        text::first_from(whole, part, from) == Some(at),
    decreases at - from,
{
    if from < at {
        assert(!text::occurs_at(whole, part, from));
        lemma_first_at(whole, part, from + 1, at);
    }
}

proof fn lemma_nowhere(whole: Seq<char>, part: Seq<char>, from: int)
    requires
        0 <= from,
        forall|j: int| from <= j ==> !#[trigger] text::occurs_at(whole, part, j),
    ensures
        text::first_from(whole, part, from) is None,
    decreases whole.len() + 1 - from,
{
    if from + part.len() <= whole.len() {
        assert(!text::occurs_at(whole, part, from));
        lemma_nowhere(whole, part, from + 1);
    }
}

/// Where a part stands, its characters stand.
proof fn lemma_occurs_chars(whole: Seq<char>, part: Seq<char>, at: int, i: int)
    requires
        text::occurs_at(whole, part, at),
        0 <= i < part.len(),
    ensures
        whole[at + i] == part[i],
{
    assert(whole.subrange(at, at + part.len())[i] == whole[at + i]);
}

/// A text without the character that tags begin with keeps all it has.
proof fn lemma_no_tag(whole: Seq<char>, open_tag: Seq<char>, close_tag: Seq<char>)
    requires
        !whole.contains('<'),
        open_tag.len() > 0,
        open_tag[0] == '<',
    ensures
        transcript::strip_tag(whole, open_tag, close_tag) == (whole, false),
{
    assert forall|j: int| 0 <= j implies !#[trigger] text::occurs_at(whole, open_tag, j) by {
        if text::occurs_at(whole, open_tag, j) {
            lemma_occurs_chars(whole, open_tag, j, 0);
            assert(whole[j] == '<');
        }
    }
    lemma_nowhere(whole, open_tag, 0);
}

proof fn lemma_one_passage(
    a: Seq<char>,
    b: Seq<char>,
    c: Seq<char>,
    open_tag: Seq<char>,
    close_tag: Seq<char>,
)
    requires
        !a.contains('<'),
        !b.contains('<'),
        !c.contains('<'),
        open_tag.len() > 0,
        open_tag[0] == '<',
        close_tag.len() > 0,
        close_tag[0] == '<',
    ensures
        transcript::strip_tag(a + open_tag + b + close_tag + c, open_tag, close_tag) == (
            a + c,
            true,
        ),
{
    let whole = a + open_tag + b + close_tag + c;
    let start = a.len() as int;
    let end = start + open_tag.len() + b.len();
    assert(whole.subrange(start, start + open_tag.len()) =~= open_tag);
    assert(text::occurs_at(whole, open_tag, start));
    assert forall|j: int| 0 <= j < start implies !#[trigger] text::occurs_at(
        whole,
        open_tag,
        j,
    ) by {
        if text::occurs_at(whole, open_tag, j) {
            lemma_occurs_chars(whole, open_tag, j, 0);
            assert(whole[j] == a[j]);
        }
    }
    lemma_first_at(whole, open_tag, 0, start);
    assert(whole.subrange(end, end + close_tag.len()) =~= close_tag);
    assert(text::occurs_at(whole, close_tag, end));
    assert forall|j: int| start + open_tag.len() <= j < end implies !#[trigger] text::occurs_at(
        whole,
        close_tag,
        j,
    ) by {
        if text::occurs_at(whole, close_tag, j) {
            lemma_occurs_chars(whole, close_tag, j, 0);
            assert(whole[j] == b[j - start - open_tag.len()]);
        }
    }
    lemma_first_at(whole, close_tag, start + open_tag.len(), end);
    assert(whole.take(start) + whole.skip(end + close_tag.len()) =~= a + c);
    assert(!(a + c).contains('<')) by {
        assert forall|i: int| 0 <= i < (a + c).len() implies (a + c)[i] != '<' by {
            if i < a.len() {
                assert(a[i] != '<');
            } else {
                assert(c[i - a.len()] != '<');
            }
        }
    }
    lemma_no_tag(a + c, open_tag, close_tag);
}

/// Recalled memories are taken out of a message, tags and all, and nothing else is: what stands before
/// and after a passage of memories stays as it was.
pub proof fn law_recalled_memories_are_taken_out(
    a: Seq<char>,
    b: Seq<char>,
    c: Seq<char>,
)
    requires
        !a.contains('<'),
        !b.contains('<'),
        !c.contains('<'),
    ensures
        transcript::stripped(
            a + "<hindsight_memories>"@ + b + "</hindsight_memories>"@ + c,
        ) == (a + c, true),
        transcript::stripped(
            a + "<relevant_memories>"@ + b + "</relevant_memories>"@ + c,
        ) == (a + c, true),
        transcript::stripped(a) == (a, false),
{
    let first = "<hindsight_memories>"@;
    let first_end = "</hindsight_memories>"@;
    let second = "<relevant_memories>"@;
    let second_end = "</relevant_memories>"@;
    reveal_strlit("<hindsight_memories>");
    reveal_strlit("</hindsight_memories>");
    reveal_strlit("<relevant_memories>");
    reveal_strlit("</relevant_memories>");
    assert(!(a + c).contains('<')) by {
        assert forall|i: int| 0 <= i < (a + c).len() implies (a + c)[i] != '<' by {
            if i < a.len() {
                assert(a[i] != '<');
            } else {
                assert(c[i - a.len()] != '<');
            }
        }
    }
    lemma_one_passage(a, b, c, first, first_end);
    lemma_no_tag(a + c, second, second_end);
    lemma_one_passage(a, b, c, second, second_end);
    lemma_no_tag(a, first, first_end);
    lemma_no_tag(a, second, second_end);
    let whole = a + second + b + second_end + c;
    assert forall|j: int| 0 <= j implies !#[trigger] text::occurs_at(whole, first, j) by {
        if text::occurs_at(whole, first, j) {
            lemma_occurs_chars(whole, first, j, 0);
            lemma_occurs_chars(whole, first, j, 1);
            assert(whole[j] == '<' && whole[j + 1] == 'h');
            let open_at = a.len() as int;
            let close_at = open_at + second.len() + b.len();
            let rest_at = close_at + second_end.len();
            if j < open_at {
                assert(whole[j] == a[j]);
            } else if j < open_at + second.len() {
                assert(whole[j] == second[j - open_at]);
                if j == open_at {
                    assert(whole[j + 1] == second[1]);
                }
            } else if j < close_at {
                assert(whole[j] == b[j - open_at - second.len()]);
            } else if j < rest_at {
                assert(whole[j] == second_end[j - close_at]);
                if j == close_at {
                    assert(whole[j + 1] == second_end[1]);
                }
            } else {
                assert(whole[j] == c[j - rest_at]);
            }
        }
    }
    lemma_nowhere(whole, first, 0);
}

/// A message that does not begin with a heading is no text that a session starts with on its own.
pub proof fn law_only_a_heading_is_synthetic(whole: Seq<char>)
    ensures
        text::trim(whole).len() > 0 && text::trim(whole)[0] != '#' ==> !transcript::synthetic(whole),
{
    let at = lemma_trim_start(whole);
    let rest = text::trim_start(whole);
    lemma_trim_end(rest);
    reveal_strlit("# AGENTS.md instructions for ");
    if transcript::synthetic(whole) && text::trim(whole).len() > 0 {
        lemma_occurs_chars(rest, "# AGENTS.md instructions for "@, 0, 0);
        assert(text::trim(whole)[0] == rest[0]);
    }
}

proof fn lemma_line_end(bytes: Seq<u8>, from: int, end: int)
    requires
        0 <= from <= end <= bytes.len(),
        forall|i: int| from <= i < end ==> #[trigger] bytes[i] != 10,
        end == bytes.len() || bytes[end] == 10,
    ensures
        transcript::line_end(bytes, from) == end,
    decreases end - from,
{
    if from < end {
        lemma_line_end(bytes, from + 1, end);
    }
}

proof fn lemma_line_end_found(bytes: Seq<u8>, from: int)
    requires
        0 <= from <= bytes.len(),
    ensures
        from <= transcript::line_end(bytes, from) <= bytes.len(),
        forall|i: int| from <= i < transcript::line_end(bytes, from) ==> #[trigger] bytes[i] != 10,
        transcript::line_end(bytes, from) < bytes.len() ==> bytes[transcript::line_end(bytes, from)]
            == 10,
    decreases bytes.len() - from,
{
    if from < bytes.len() && bytes[from] != 10 {
        lemma_line_end_found(bytes, from + 1);
    }
}

/// The lines of a text do not depend on what stands before it.
proof fn lemma_lines_shift(front: Seq<u8>, bytes: Seq<u8>, from: int)
    requires
        0 <= from,
    ensures
        transcript::lines_from(front + bytes, front.len() + from) == transcript::lines_from(
            bytes,
            from,
        ),
    decreases bytes.len() + 1 - from,
{
    let whole = front + bytes;
    if from < bytes.len() {
        lemma_line_end_found(bytes, from);
        let end = transcript::line_end(bytes, from);
        let shifted = front.len() + end;
        assert forall|i: int| front.len() + from <= i < shifted implies #[trigger] whole[i] != 10 by {
            assert(whole[i] == bytes[i - front.len()]);
        }
        if end < bytes.len() {
            assert(whole[shifted] == bytes[end]);
        }
        lemma_line_end(whole, front.len() + from, shifted);
        assert(transcript::line_between(whole, front.len() + from, shifted)
            =~= transcript::line_between(bytes, from, end)) by {
            if end < bytes.len() && from < end {
                assert(whole[shifted - 1] == bytes[end - 1]);
            }
            assert(whole.subrange(front.len() + from, shifted) =~= bytes.subrange(from, end));
            if from < end {
                assert(whole.subrange(front.len() + from, shifted - 1) =~= bytes.subrange(
                    from,
                    end - 1,
                ));
            }
        }
        lemma_lines_shift(front, bytes, end + 1);
    }
}

/// The lines of a transcript are what stands between its line feeds, in order, all of it, but for a
/// carriage return before a line feed; a last line needs no line feed.
pub proof fn law_lines_are_what_line_feeds_part(line: Seq<u8>, rest: Seq<u8>)
    requires
        !line.contains(10),
    ensures
        transcript::lines_from(Seq::empty(), 0).len() == 0,
        line.len() > 0 ==> transcript::lines_from(line, 0) == seq![line],
        line.len() == 0 || line.last() != 13 ==> transcript::lines_from(
            line.push(10) + rest,
            0,
        ) == seq![line] + transcript::lines_from(rest, 0),
        transcript::lines_from(line.push(13).push(10) + rest, 0) == seq![line]
            + transcript::lines_from(rest, 0),
{
    if line.len() > 0 {
        lemma_line_end(line, 0, line.len() as int);
        assert(line.subrange(0, line.len() as int) =~= line);
        assert(transcript::lines_from(line, (line.len() + 1) as int) =~= Seq::empty());
        assert(seq![line] + Seq::<Seq<u8>>::empty() =~= seq![line]);
    }
    let plain = line.push(10) + rest;
    assert forall|i: int| 0 <= i < line.len() implies #[trigger] plain[i] != 10 by {
        assert(plain[i] == line[i]);
    }
    lemma_line_end(plain, 0, line.len() as int);
    lemma_lines_shift(line.push(10), rest, 0);
    assert(plain.subrange(0, line.len() as int) =~= line);
    if line.len() > 0 {
        assert(plain[line.len() - 1] == line.last());
    }
    let dos = line.push(13).push(10) + rest;
    assert forall|i: int| 0 <= i < line.len() + 1 implies #[trigger] dos[i] != 10 by {
        if i < line.len() {
            assert(dos[i] == line[i]);
        } else {
            assert(dos[i] == 13);
        }
    }
    lemma_line_end(dos, 0, (line.len() + 1) as int);
    lemma_lines_shift(line.push(13).push(10), rest, 0);
    assert(dos[line.len() as int] == 13);
    assert(dos.subrange(0, line.len() as int) =~= line);
}

/// A blank line holds nothing and changes nothing, and every other line holds the value that its text
/// reads as, behind the values before it; a line that reads as none is refused by its number.
pub proof fn law_each_line_holds_one_value(lines: Seq<Seq<u8>>, line: Seq<u8>)
    requires
        vstd::utf8::valid_utf8(line),
    ensures
        ({
            let before = transcript::line_values(lines);
            let after = transcript::line_values(lines.push(line));
            let written = vstd::utf8::decode_utf8(line);
            &&& before is Err ==> after == before
            &&& before matches Ok(values) ==> {
                &&& text::trim(written).len() == 0 ==> after == before
                &&& text::trim(written).len() > 0 ==> match crate::json::json_of_text(written) {
                    Ok(value) => after matches Ok(all) && all == values.push(value),
                    Err(_) => after is Err,
                }
            }
        }),
{
    assert(lines.push(line).drop_last() =~= lines);
}

} // verus!
