//! What the lines of a session tell, and what is counted of them.
use crate::json;
use crate::json::JsonView;
use crate::text;
use crate::transcript;
use crate::transcript::EntryView;
use vstd::prelude::*;

verus! {

/// Two texts on lines of their own; an empty one takes none.
pub open spec fn on_lines(first: Seq<char>, second: Seq<char>) -> Seq<char> {
    if first.len() == 0 {
        second
    } else if second.len() == 0 {
        first
    } else {
        first + seq!['\n'] + second
    }
}

/// What a finished command says: what it printed, its exit code where that is not zero, and its status where
/// that is not the usual one, each on lines of its own.
pub open spec fn said(output: Seq<char>, code: i64, status: Seq<char>) -> Seq<char> {
    on_lines(
        on_lines(
            output,
            if code == 0 {
                Seq::empty()
            } else {
                "exit_code: "@ + text::signed_decimal(code as int)
            },
        ),
        if status == "completed"@ {
            Seq::empty()
        } else {
            "status: "@ + status
        },
    )
}

proof fn lemma_join_few(a: Seq<char>, b: Seq<char>, c: Seq<char>)
    ensures
        text::join(seq![a], "\n"@) == a,
        text::join(seq![a, b], "\n"@) == a + seq!['\n'] + b,
        text::join(seq![a, b, c], "\n"@) == a + seq!['\n'] + b + seq!['\n'] + c,
{
    reveal_strlit("\n");
    assert("\n"@ =~= seq!['\n']);
    let two = seq![a, b];
    let three = seq![a, b, c];
    assert(text::join(seq![a], "\n"@) == a);
    assert(two.drop_last() =~= seq![a]);
    assert(two.last() == b);
    assert(text::join(two, "\n"@) == a + seq!['\n'] + b);
    assert(three.drop_last() =~= two);
    assert(three.last() == c);
    assert(text::join(three, "\n"@) == text::join(two, "\n"@) + "\n"@ + c);
}

/// A finished command is told with all that it says: its output, its exit code and its status, in this order. What
/// is not told, or is of another kind, says nothing.
pub proof fn law_command_says_all_it_has_to(
    payload: JsonView,
    output: Seq<char>,
    code: i64,
    status: Seq<char>,
)
    requires
        match json::get(payload, "aggregated_output"@) {
            Some(JsonView::Text(t)) => output == t,
            _ => output.len() == 0,
        },
        match json::get(payload, "exit_code"@) {
            Some(JsonView::Unsigned(n)) => if n <= i64::MAX {
                code == n
            } else {
                code == 0
            },
            Some(JsonView::Negative(n)) => code == n,
            _ => code == 0,
        },
        match json::get(payload, "status"@) {
            Some(JsonView::Text(t)) => status == t,
            _ => status == "completed"@,
        },
    ensures
        ({
            let told = transcript::event_tools("exec_command_end"@, payload);
            let result = transcript::tool_result(Some(said(output, code, status)));
            &&& told.blocks.skip(1) == result.blocks
            &&& told.calls == 1
            &&& told.results == result.results
            &&& told.cut == result.cut
        }),
{
    reveal_strlit("exit_code: ");
    reveal_strlit("status: ");
    reveal_strlit("completed");
    let c = "exit_code: "@ + text::signed_decimal(code as int);
    let s = "status: "@ + status;
    let parts = transcript::command_report(payload);
    lemma_join_few(output, c, s);
    lemma_join_few(output, s, c);
    lemma_join_few(c, s, output);
    lemma_join_few(s, c, output);
    let none = Seq::<Seq<char>>::empty();
    let shown = if output.len() == 0 {
        none
    } else {
        seq![output]
    };
    let coded = if code == 0 {
        none
    } else {
        seq![c]
    };
    let stated = if status == "completed"@ {
        none
    } else {
        seq![s]
    };
    assert(parts == shown + coded + stated);
    if output.len() == 0 {
        if code == 0 {
            assert(parts =~= stated);
        } else if status == "completed"@ {
            assert(parts =~= seq![c]);
        } else {
            assert(parts =~= seq![c, s]);
        }
    } else {
        if code == 0 {
            if status == "completed"@ {
                assert(parts =~= seq![output]);
            } else {
                assert(parts =~= seq![output, s]);
            }
        } else {
            if status == "completed"@ {
                assert(parts =~= seq![output, c]);
            } else {
                assert(parts =~= seq![output, c, s]);
            }
        }
    }
    let told = transcript::event_tools("exec_command_end"@, payload);
    if parts.len() == 0 {
        assert(said(output, code, status) =~= Seq::<char>::empty());
        lemma_blank();
        assert(told.blocks.skip(1) =~= Seq::<JsonView>::empty());
    } else {
        assert(text::join(parts, "\n"@) =~= said(output, code, status));
        assert(told.blocks.skip(1) =~= transcript::tool_result(
            Some(said(output, code, status)),
        ).blocks);
    }
}

proof fn lemma_blank()
    ensures
        text::trim(Seq::<char>::empty()).len() == 0,
{
}

/// Whether an item of a list is a text of one of two kinds.
pub open spec fn is_text_of(item: JsonView, a: Seq<char>, b: Seq<char>, t: Seq<char>) -> bool {
    &&& json::get(item, "text"@) == Some(JsonView::Text(t))
    &&& json::get(item, "type"@) == Some(JsonView::Text(a)) || json::get(item, "type"@) == Some(
        JsonView::Text(b),
    )
}

proof fn lemma_typed(items: Seq<JsonView>, texts: Seq<Seq<char>>, a: Seq<char>, b: Seq<char>)
    requires
        items.len() == texts.len(),
        forall|i: int| 0 <= i < items.len() ==> is_text_of(#[trigger] items[i], a, b, texts[i]),
    ensures
        transcript::typed_texts(items, a, b) == texts,
    decreases items.len(),
{
    if items.len() > 0 {
        let front = items.drop_last();
        assert forall|i: int| 0 <= i < front.len() implies is_text_of(
            #[trigger] front[i],
            a,
            b,
            texts.drop_last()[i],
        ) by {
            assert(is_text_of(items[i], a, b, texts[i]));
        }
        lemma_typed(front, texts.drop_last(), a, b);
        assert(is_text_of(items[items.len() - 1], a, b, texts[texts.len() - 1]));
        assert(transcript::typed_texts(items, a, b) =~= texts);
    } else {
        assert(texts =~= Seq::<Seq<char>>::empty());
    }
}

/// The output of a function is its texts, each on lines of its own.
pub proof fn law_function_output_is_its_texts(items: Seq<JsonView>, texts: Seq<Seq<char>>)
    requires
        items.len() == texts.len(),
        forall|i: int|
            0 <= i < items.len() ==> is_text_of(
                #[trigger] items[i],
                "input_text"@,
                "text"@,
                texts[i],
            ),
    ensures
        transcript::function_output(JsonView::Array(items)) == text::trim(
            text::join(texts, seq!['\n']),
        ),
{
    reveal_strlit("\n");
    assert("\n"@ =~= seq!['\n']);
    lemma_typed(items, texts, "input_text"@, "text"@);
}

/// What a tool server returned is its texts, each on lines of its own.
pub proof fn law_tool_server_output_is_its_texts(
    result: JsonView,
    items: Seq<JsonView>,
    texts: Seq<Seq<char>>,
)
    requires
        json::get(result, "content"@) == Some(JsonView::Array(items)),
        items.len() == texts.len(),
        forall|i: int|
            0 <= i < items.len() ==> is_text_of(#[trigger] items[i], "text"@, "text"@, texts[i]),
    ensures
        transcript::mcp_result(result) == Some(text::join(texts, seq!['\n'])),
{
    reveal_strlit("\n");
    assert("\n"@ =~= seq!['\n']);
    lemma_typed(items, texts, "text"@, "text"@);
}

/// Texts on lines of their own: one alone is itself, and one more follows the others.
pub proof fn law_joined_texts_follow_each_other(
    texts: Seq<Seq<char>>,
    t: Seq<char>,
    separator: Seq<char>,
)
    ensures
        text::join(Seq::empty(), separator) == Seq::<char>::empty(),
        text::join(seq![t], separator) == t,
        texts.len() > 0 ==> text::join(texts.push(t), separator) == text::join(texts, separator)
            + separator + t,
{
    assert(texts.push(t).drop_last() =~= texts);
}

/// An item that is no text, or a text of another kind, tells nothing.
pub proof fn law_other_items_tell_nothing(items: Seq<JsonView>, item: JsonView)
    ensures
        !(json::get(item, "text"@) matches Some(JsonView::Text(_))) || (json::get(item, "type"@)
            != Some(JsonView::Text("input_text"@)) && json::get(item, "type"@) != Some(
            JsonView::Text("text"@),
        )) ==> transcript::function_output(JsonView::Array(items.push(item)))
            == transcript::function_output(JsonView::Array(items)),
{
    assert(items.push(item).drop_last() =~= items);
}

/// The content of a bare line may be blocks, whose texts it is, or any other value, which it tells as JSON.
pub proof fn law_bare_content_is_told(content: JsonView)
    ensures
        content matches JsonView::Text(t) ==> transcript::value_text(content) == t,
        content is Array ==> transcript::value_text(content) == transcript::content_text(
            Some(content),
        ),
        !(content is Text) && !(content is Array) ==> transcript::value_text(content)
            == json::json_text(content),
{
}

/// Every message counts as one, whether or not it is kept. It counts as an echo where memories were taken out of
/// it, whoever said it, and as made up where the user's own instructions are all that it says.
pub proof fn law_messages_are_counted(
    values: Seq<JsonView>,
    value: JsonView,
    tool_aware: bool,
    user: bool,
    t: Seq<char>,
)
    requires
        transcript::entry_of(value, tool_aware) == (EntryView::Message { user, text: t }),
    ensures
        ({
            let before = transcript::rendered(values, tool_aware).stats;
            let after = transcript::rendered(values.push(value), tool_aware).stats;
            let clean = transcript::stripped(t);
            &&& after.source == before.source + 1
            &&& after.echoes == before.echoes + (if clean.1 {
                1nat
            } else {
                0nat
            })
            &&& after.synthetic == before.synthetic + (if user && transcript::synthetic(clean.0) {
                1nat
            } else {
                0nat
            })
            &&& after.calls == before.calls
            &&& after.results == before.results
            &&& after.cut == before.cut
        }),
{
    assert(values.push(value).drop_last() =~= values);
}

/// A draft counts as a message and is not kept.
pub proof fn law_drafts_are_counted(values: Seq<JsonView>, value: JsonView, tool_aware: bool)
    requires
        transcript::entry_of(value, tool_aware) is Draft,
    ensures
        ({
            let before = transcript::rendered(values, tool_aware);
            let after = transcript::rendered(values.push(value), tool_aware);
            &&& after.stats.source == before.stats.source + 1
            &&& after.stats.echoes == before.stats.echoes
            &&& after.stats.synthetic == before.stats.synthetic
            &&& after.messages == before.messages
            &&& after.blocks == before.blocks
            &&& after.saw_message
        }),
{
    assert(values.push(value).drop_last() =~= values);
}

/// What is gathered for the assistant bears the time of the last line that told anything with a time.
pub proof fn law_gathered_blocks_bear_the_last_time(
    values: Seq<JsonView>,
    value: JsonView,
    tool_aware: bool,
)
    requires
        transcript::entry_of(value, tool_aware) is Tools,
    ensures
        ({
            let before = transcript::rendered(values, tool_aware);
            let after = transcript::rendered(values.push(value), tool_aware);
            let tools = transcript::entry_of(value, tool_aware)->Tools_tools;
            let time = match json::get(value, "timestamp"@) {
                Some(JsonView::Text(t)) => Some(t),
                _ => None,
            };
            &&& after.blocks == before.blocks + tools.blocks
            &&& time is Some && after.blocks.len() > 0 ==> after.blocks_time == time
            &&& time is None || after.blocks.len() == 0 ==> after.blocks_time == before.blocks_time
            &&& after.stats.calls == before.stats.calls + tools.calls
            &&& after.stats.results == before.stats.results + tools.results
            &&& after.stats.cut == before.stats.cut + tools.cut
            &&& after.messages == before.messages
        }),
{
    assert(values.push(value).drop_last() =~= values);
}

/// The old form of a transcript grows by one paragraph for each message with anything to say: who said it, when,
/// and what.
pub proof fn law_old_transcript_grows_by_paragraphs(
    values: Seq<JsonView>,
    value: JsonView,
    user: bool,
    t: Seq<char>,
)
    requires
        transcript::entry_of(value, false) == (EntryView::Event { user, text: t }),
        text::trim(t).len() > 0,
    ensures
        ({
            let before = transcript::legacy_transcript(values);
            let after = transcript::legacy_transcript(values.push(value));
            let paragraph = (if user {
                "User"@
            } else {
                "Assistant"@
            }) + seq![' ', '('] + (match json::get(value, "timestamp"@) {
                Some(JsonView::Text(time)) => time,
                _ => "unknown time"@,
            }) + seq![')', ':', ' '] + t;
            &&& after is Ok
            &&& before is Err ==> after->Ok_0.content == paragraph
            &&& before is Ok ==> after->Ok_0.content == before->Ok_0.content + seq!['\n', '\n']
                + paragraph
            &&& before is Ok ==> after->Ok_0.stats.included == before->Ok_0.stats.included + 1
            &&& before is Err ==> after->Ok_0.stats.included == 1
        }),
{
    assert(values.push(value).drop_last() =~= values);
    reveal_strlit("\n\n");
    reveal_strlit(" (");
    reveal_strlit("): ");
    assert("\n\n"@ =~= seq!['\n', '\n']);
    assert(" ("@ =~= seq![' ', '(']);
    assert("): "@ =~= seq![')', ':', ' ']);
    let before = transcript::legacy_rendered(values);
    let after = transcript::legacy_rendered(values.push(value));
    assert(after.parts.drop_last() =~= before.parts);
}

/// A message is made up exactly where, behind leading white space, it begins with the heading of the instructions
/// and holds both of their marks.
pub proof fn law_made_up_message_has_heading_and_marks(whole: Seq<char>)
    ensures
        ({
            let heading = "# AGENTS.md instructions for "@;
            let t = text::trim_start(whole);
            transcript::synthetic(whole) <==> {
                &&& t.len() >= heading.len() && t.take(heading.len() as int) == heading
                &&& exists|i: int| #[trigger] text::occurs_at(t, "<INSTRUCTIONS>"@, i)
                &&& exists|i: int| #[trigger] text::occurs_at(t, "</INSTRUCTIONS>"@, i)
            }
        }),
{
    let heading = "# AGENTS.md instructions for "@;
    let t = text::trim_start(whole);
    if t.len() >= heading.len() {
        assert(t.take(heading.len() as int) =~= t.subrange(0, heading.len() as int));
    }
}

/// A member of an object is read by its name, and as what it is: a text as a text, a list as a list, a number as
/// the number where it fits.
pub proof fn law_members_are_read_as_what_they_are(
    members: Map<Seq<char>, JsonView>,
    name: Seq<char>,
    value: JsonView,
)
    ensures
        json::get(JsonView::Object(members), name) == (if members.dom().contains(name) {
            Some(members[name])
        } else {
            None
        }),
        !(value is Object) ==> json::get(value, name) is None,
        json::as_text(Some(value)) == (match value {
            JsonView::Text(t) => Some(t),
            _ => None,
        }),
        json::as_items(Some(value)) == (match value {
            JsonView::Array(items) => Some(items),
            _ => None,
        }),
        json::as_object(Some(value)) is Some <==> value is Object,
        json::as_object(Some(value)) is Some ==> json::as_object(Some(value))->Some_0 == value,
        json::as_unsigned(Some(value)) == (match value {
            JsonView::Unsigned(n) => Some(n),
            _ => None,
        }),
        json::as_integer(Some(value)) matches Some(n) ==> value == (if n < 0 {
            JsonView::Negative(n)
        } else {
            JsonView::Unsigned(n as u64)
        }) || (value is Negative && value->Negative_0 == n),
        value matches JsonView::Unsigned(n) ==> (json::as_integer(Some(value)) is Some <==> n
            <= i64::MAX),
        value is Negative ==> json::as_integer(Some(value)) is Some,
        json::as_text(None) is None && json::as_items(None) is None && json::as_object(None) is None
            && json::as_unsigned(None) is None && json::as_integer(None) is None,
{
}

} // verus!
