use vstd::prelude::*;
use vstd::string::StringExecFns;
use vstd::string::StringSliceAdditionalSpecFns;

verus! {

broadcast use vstd::string::group_string_axioms;

/// One message of a chat.
#[derive(Debug, Clone)]
pub struct ChatMessage {
    pub role: String,
    pub content: String,
}

/// A finished chat completion.
#[derive(Debug, Clone)]
pub struct ChatCompletionResponse {
    pub id: String,
    pub object: String,
    pub created: u64,
    pub model: String,
    pub choices: Vec<CompletionChoice>,
    pub usage: Usage,
}

/// One streamed piece of a chat completion.
#[derive(Debug, Clone)]
pub struct ChatCompletionChunk {
    pub id: String,
    pub object: String,
    pub created: u64,
    pub model: String,
    pub choices: Vec<ChunkChoice>,
}

/// A choice of a streamed chat piece.
#[derive(Debug, Clone)]
pub struct ChunkChoice {
    pub index: usize,
    pub delta: DeltaMessage,
    pub finish_reason: Option<String>,
}

/// The change a streamed chat piece brings.
#[derive(Debug, Clone)]
pub struct DeltaMessage {
    pub role: Option<String>,
    pub content: Option<String>,
}

/// One streamed piece of a text completion.
#[derive(Debug, Clone)]
pub struct CompletionChunk {
    pub id: String,
    pub object: String,
    pub created: u64,
    pub model: String,
    pub choices: Vec<TextChunkChoice>,
}

/// A choice of a streamed text piece.
#[derive(Debug, Clone)]
pub struct TextChunkChoice {
    pub index: usize,
    pub text: String,
    pub finish_reason: Option<String>,
}

/// A choice of a chat completion.
#[derive(Debug, Clone)]
pub struct CompletionChoice {
    pub index: usize,
    pub message: ChatMessage,
    pub finish_reason: String,
}

/// Token counts of a request.
#[derive(Debug, Clone, Copy)]
pub struct Usage {
    pub prompt_tokens: i32,
    pub completion_tokens: i32,
    pub total_tokens: i32,
}

/// A finished text completion.
#[derive(Debug, Clone)]
pub struct CompletionResponse {
    pub id: String,
    pub object: String,
    pub created: u64,
    pub model: String,
    pub choices: Vec<TextChoice>,
    pub usage: Usage,
}

/// A choice of a text completion.
#[derive(Debug, Clone)]
pub struct TextChoice {
    pub index: usize,
    pub text: String,
    pub finish_reason: String,
}

/// The models the server offers.
#[derive(Debug, Clone)]
pub struct ModelListResponse {
    pub object: String,
    pub data: Vec<ModelData>,
}

/// One offered model.
#[derive(Debug, Clone)]
pub struct ModelData {
    pub id: String,
    pub object: String,
    pub owned_by: String,
}

/// Texts to embed.
#[derive(Debug, Clone)]
pub struct EmbeddingsRequest {
    pub input: Vec<String>,
    pub model: String,
}

/// The line a message contributes to a prompt: its role, a colon and a space, its content.
pub open spec fn message_line(m: ChatMessage) -> Seq<char> {
    m.role@ + ": "@ + m.content@
}

/// The lines of the messages joined by newlines.
pub open spec fn joined_lines(ms: Seq<ChatMessage>) -> Seq<char>
    decreases ms.len(),
{
    if ms.len() == 0 {
        Seq::empty()
    } else if ms.len() == 1 {
        message_line(ms[0])
    } else {
        joined_lines(ms.drop_last()) + "\n"@ + message_line(ms.last())
    }
}

/// The prompt of a chat: one `role: content` line per message.
pub fn chat_prompt(messages: &[ChatMessage]) -> (r: String)
    ensures
        r@ == joined_lines(messages@),
{
    let mut out = String::new();
    let mut i: usize = 0;
    while i < messages.len()
        invariant
            i <= messages@.len(),
            out@ == joined_lines(messages@.take(i as int)),
        decreases messages@.len() - i,
    {
        let m = &messages[i];
        let ghost before = out@;
        if i > 0 {
            out.append("\n");
        }
        out.append(m.role.as_str());
        out.append(": ");
        out.append(m.content.as_str());
        proof {
            let t = messages@.take(i + 1);
            assert(t.drop_last() =~= messages@.take(i as int));
            assert(t.last() == *m);
            if i == 0 {
                assert(t.len() == 1);
                assert(t[0] == *m);
                assert(out@ =~= message_line(*m));
            } else {
                assert(out@ =~= before + "\n"@ + message_line(*m));
            }
        }
        i += 1;
    }
    proof {
        assert(messages@.take(messages@.len() as int) =~= messages@);
    }
    out
}

/// The token estimate of a text of `len` bytes: a quarter of the length taken as an `i32`,
/// rounded toward zero.
pub open spec fn quarter_estimate(len: nat) -> i32 {
    let x = (len as usize) as i32 as int;
    if x >= 0 {
        (x / 4) as i32
    } else {
        (-((-x) / 4)) as i32
    }
}

/// The usage a text is reported with: its estimate as prompt and total tokens, none generated.
pub fn estimate_usage(text: &str) -> (u: Usage)
    ensures
        u.prompt_tokens == quarter_estimate(text.spec_bytes().len()),
        u.completion_tokens == 0,
        u.total_tokens == quarter_estimate(text.spec_bytes().len()),
{
    let x: i32 = #[verifier::truncate] (text.len() as i32);
    let y: i64 = x as i64;
    let q64: i64 = if y >= 0 {
        y / 4
    } else {
        -((-y) / 4)
    };
    let q: i32 = q64 as i32;
    Usage { prompt_tokens: q, completion_tokens: 0, total_tokens: q }
}

/// The model list: the one model `rust-llm`.
pub fn model_list() -> (r: ModelListResponse)
    ensures
        r.object@ == "list"@,
        r.data@.len() == 1,
        r.data@[0].id@ == "rust-llm"@,
        r.data@[0].object@ == "model"@,
        r.data@[0].owned_by@ == "rust-llm"@,
{
    let mut data: Vec<ModelData> = Vec::new();
    data.push(
        ModelData {
            id: "rust-llm".to_string(),
            object: "model".to_string(),
            owned_by: "rust-llm".to_string(),
        },
    );
    ModelListResponse { object: "list".to_string(), data }
}

/// The response to a chat: one assistant message holding `output`, finished by `stop`, with
/// the usage of the prompt.
pub fn chat_response(id: String, created: u64, model: String, output: String, prompt: &str) -> (r:
    ChatCompletionResponse)
    ensures
        r.id@ == id@,
        r.object@ == "chat.completion"@,
        r.created == created,
        r.model@ == model@,
        r.choices@.len() == 1,
        r.choices@[0].index == 0,
        r.choices@[0].message.role@ == "assistant"@,
        r.choices@[0].message.content@ == output@,
        r.choices@[0].finish_reason@ == "stop"@,
        r.usage.prompt_tokens == quarter_estimate(prompt.spec_bytes().len()),
        r.usage.completion_tokens == 0,
        r.usage.total_tokens == quarter_estimate(prompt.spec_bytes().len()),
{
    let mut choices: Vec<CompletionChoice> = Vec::new();
    choices.push(
        CompletionChoice {
            index: 0,
            message: ChatMessage { role: "assistant".to_string(), content: output },
            finish_reason: "stop".to_string(),
        },
    );
    ChatCompletionResponse {
        id,
        object: "chat.completion".to_string(),
        created,
        model,
        choices,
        usage: estimate_usage(prompt),
    }
}

/// The response to a text completion: one choice holding `output`, finished by `stop`, with
/// the usage of the prompt.
pub fn completion_response(id: String, created: u64, model: String, output: String, prompt: &str) -> (r:
    CompletionResponse)
    ensures
        r.id@ == id@,
        r.object@ == "text_completion"@,
        r.created == created,
        r.model@ == model@,
        r.choices@.len() == 1,
        r.choices@[0].index == 0,
        r.choices@[0].text@ == output@,
        r.choices@[0].finish_reason@ == "stop"@,
        r.usage.prompt_tokens == quarter_estimate(prompt.spec_bytes().len()),
        r.usage.completion_tokens == 0,
        r.usage.total_tokens == quarter_estimate(prompt.spec_bytes().len()),
{
    let mut choices: Vec<TextChoice> = Vec::new();
    choices.push(TextChoice { index: 0, text: output, finish_reason: "stop".to_string() });
    CompletionResponse {
        id,
        object: "text_completion".to_string(),
        created,
        model,
        choices,
        usage: estimate_usage(prompt),
    }
}

/// A streamed chat piece from the assistant: `text`, or the final piece (empty, finished by
/// `stop`) when `is_last`.
pub fn chat_chunk(id: String, created: u64, model: String, text: String, is_last: bool) -> (r:
    ChatCompletionChunk)
    ensures
        r.id@ == id@,
        r.object@ == "chat.completion.chunk"@,
        r.created == created,
        r.model@ == model@,
        r.choices@.len() == 1,
        r.choices@[0].index == 0,
        r.choices@[0].delta.role matches Some(role) && role@ == "assistant"@,
        is_last ==> (r.choices@[0].delta.content matches Some(c) && c@.len() == 0)
            && (r.choices@[0].finish_reason matches Some(f) && f@ == "stop"@),
        !is_last ==> (r.choices@[0].delta.content matches Some(c) && c@ == text@)
            && r.choices@[0].finish_reason is None,
{
    let content = if is_last {
        String::new()
    } else {
        text
    };
    let finish_reason = if is_last {
        Some("stop".to_string())
    } else {
        None
    };
    let mut choices: Vec<ChunkChoice> = Vec::new();
    choices.push(
        ChunkChoice {
            index: 0,
            delta: DeltaMessage { role: Some("assistant".to_string()), content: Some(content) },
            finish_reason,
        },
    );
    ChatCompletionChunk { id, object: "chat.completion.chunk".to_string(), created, model, choices }
}

/// The characters of a message's line: role, colon and space, content.
pub open spec fn line_len(m: ChatMessage) -> int {
    m.role@.len() + 2 + m.content@.len() as int
}

/// The characters of the lines of `ms`, newlines aside.
pub open spec fn lines_total(ms: Seq<ChatMessage>) -> int
    decreases ms.len(),
{
    if ms.len() == 0 {
        0
    } else {
        lines_total(ms.drop_last()) + line_len(ms.last())
    }
}

/// Where message `i`'s line starts in a prompt: after the lines of the messages before it and
/// one newline after each.
pub open spec fn line_start(ms: Seq<ChatMessage>, i: int) -> int {
    lines_total(ms.take(i)) + i
}

proof fn lemma_lines_total_take(ms: Seq<ChatMessage>, i: int)
    requires
        0 <= i < ms.len(),
    ensures
        lines_total(ms.take(i + 1)) == lines_total(ms.take(i)) + line_len(ms[i]),
        lines_total(ms.take(i)) >= 0,
{
    assert(ms.take(i + 1).drop_last() =~= ms.take(i));
    lemma_lines_total_nonneg(ms.take(i));
}

proof fn lemma_lines_total_nonneg(ms: Seq<ChatMessage>)
    ensures
        lines_total(ms) >= 0,
    decreases ms.len(),
{
    if ms.len() > 0 {
        lemma_lines_total_nonneg(ms.drop_last());
    }
}

/// Every message contributes its line to the chat prompt, in order: the prompt is
/// `role: content` for each message, joined by single newlines. Its length is the sum of the
/// lines' lengths plus one newline between each two; message `i`'s role, `": "` and content
/// stand at `line_start(ms, i)`, preceded by a newline for every message but the first.
pub proof fn lemma_chat_prompt_lines(ms: Seq<ChatMessage>)
    requires
        ms.len() >= 1,
    ensures
        joined_lines(ms).len() == lines_total(ms) + ms.len() - 1,
        forall|i: int|
            #![trigger ms[i]]
            0 <= i < ms.len() ==> {
                let s = line_start(ms, i);
                &&& joined_lines(ms).subrange(s, s + ms[i].role@.len()) == ms[i].role@
                &&& joined_lines(ms)[s + ms[i].role@.len()] == ':'
                &&& joined_lines(ms)[s + ms[i].role@.len() + 1] == ' '
                &&& joined_lines(ms).subrange(s + ms[i].role@.len() + 2, s + line_len(ms[i])) == ms[i].content@
                &&& i > 0 ==> joined_lines(ms)[s - 1] == '\n'
            },
    decreases ms.len(),
{
    reveal_strlit(": ");
    reveal_strlit("\n");
    let n = ms.len() as int;
    let last = ms.last();
    let line = last.role@ + ": "@ + last.content@;
    assert(line.len() == line_len(last));
    assert(line.subrange(0, last.role@.len() as int) =~= last.role@);
    assert(line[last.role@.len() as int] == ':');
    assert(line[last.role@.len() as int + 1] == ' ');
    assert(line.subrange(last.role@.len() as int + 2, line_len(last)) =~= last.content@);
    if n == 1 {
        assert(ms.take(0) =~= Seq::<ChatMessage>::empty());
        assert(joined_lines(ms) == line);
        assert forall|i: int| #![trigger ms[i]] 0 <= i < ms.len() implies {
            let s = line_start(ms, i);
            &&& joined_lines(ms).subrange(s, s + ms[i].role@.len()) == ms[i].role@
            &&& joined_lines(ms)[s + ms[i].role@.len()] == ':'
            &&& joined_lines(ms)[s + ms[i].role@.len() + 1] == ' '
            &&& joined_lines(ms).subrange(s + ms[i].role@.len() + 2, s + line_len(ms[i])) == ms[i].content@
            &&& i > 0 ==> joined_lines(ms)[s - 1] == '\n'
        } by {
            assert(i == 0);
            assert(line_start(ms, 0) == 0);
        }
    } else {
        let init = ms.drop_last();
        lemma_chat_prompt_lines(init);
        lemma_lines_total_nonneg(init);
        let j = joined_lines(init);
        let whole = joined_lines(ms);
        assert(whole == j + "\n"@ + line);
        let base = j.len() + 1;
        assert forall|i: int| #![trigger ms[i]] 0 <= i < ms.len() implies {
            let s = line_start(ms, i);
            &&& whole.subrange(s, s + ms[i].role@.len()) == ms[i].role@
            &&& whole[s + ms[i].role@.len()] == ':'
            &&& whole[s + ms[i].role@.len() + 1] == ' '
            &&& whole.subrange(s + ms[i].role@.len() + 2, s + line_len(ms[i])) == ms[i].content@
            &&& i > 0 ==> whole[s - 1] == '\n'
        } by {
            let s = line_start(ms, i);
            if i < n - 1 {
                assert(ms.take(i) =~= init.take(i));
                assert(ms[i] == init[i]);
                assert(line_start(ms, i) == line_start(init, i));
                let si = line_start(init, i);
                assert(init[i] == ms[i]);
                // the line lies inside the prompt of the earlier messages
                lemma_lines_total_take(init, i);
                lemma_lines_below(init, i);
                assert(whole.subrange(s, s + ms[i].role@.len()) =~= j.subrange(s, s + ms[i].role@.len()));
                assert(whole.subrange(s + ms[i].role@.len() + 2, s + line_len(ms[i])) =~= j.subrange(
                    s + ms[i].role@.len() + 2,
                    s + line_len(ms[i]),
                ));
                assert(whole[s + ms[i].role@.len()] == j[s + ms[i].role@.len()]);
                assert(whole[s + ms[i].role@.len() + 1] == j[s + ms[i].role@.len() + 1]);
                if i > 0 {
                    assert(whole[s - 1] == j[s - 1]);
                }
            } else {
                assert(i == n - 1);
                assert(ms.take(i) =~= init);
                assert(s == base);
                assert(whole.subrange(s, s + ms[i].role@.len()) =~= line.subrange(0, last.role@.len() as int));
                assert(whole.subrange(s + ms[i].role@.len() + 2, s + line_len(ms[i])) =~= line.subrange(
                    last.role@.len() as int + 2,
                    line_len(last),
                ));
                assert(whole[s + ms[i].role@.len()] == line[last.role@.len() as int]);
                assert(whole[s + ms[i].role@.len() + 1] == line[last.role@.len() as int + 1]);
                assert(whole[s - 1] == '\n');
            }
        }
    }
}

/// The line of message `i` ends inside the prompt of the messages up to it.
proof fn lemma_lines_below(ms: Seq<ChatMessage>, i: int)
    requires
        0 <= i < ms.len(),
    ensures
        line_start(ms, i) + line_len(ms[i]) <= lines_total(ms) + ms.len() - 1,
    decreases ms.len(),
{
    lemma_lines_total_nonneg(ms);
    if i < ms.len() - 1 {
        let init = ms.drop_last();
        assert(ms.take(i) =~= init.take(i));
        assert(init[i] == ms[i]);
        lemma_lines_below(init, i);
        lemma_lines_total_nonneg(init);
        assert(line_len(ms.last()) >= 2);
    } else {
        assert(ms.take(i) =~= ms.drop_last());
    }
}

} // verus!
