//! The language-model client's own logic: configuration checks, the system prompt, and the
//! framing of the server-sent event stream.
use vstd::prelude::*;
use crate::models::conversation::{ContextChunk, Message, MessageRole, role_wire_name};
use crate::text::{chars_of, is_ws, trim, trim_range, string_of, push_char, push_text, str_eq};

verus! {

#[derive(Debug, Clone, Copy, PartialEq, Eq, Structural)]
pub enum LlmProvider {
    OpenAI,
    Anthropic,
    Local,
}

pub open spec fn provider_name(p: LlmProvider) -> Seq<char> {
    match p {
        LlmProvider::OpenAI => "OpenAI"@,
        LlmProvider::Anthropic => "Anthropic"@,
        LlmProvider::Local => "Local"@,
    }
}

impl LlmProvider {
    pub fn to_string(&self) -> (r: String)
        ensures
            r@ == provider_name(*self),
    {
        match self {
            LlmProvider::OpenAI => "OpenAI".to_string(),
            LlmProvider::Anthropic => "Anthropic".to_string(),
            LlmProvider::Local => "Local".to_string(),
        }
    }
}

#[derive(Debug)]
/// Client settings. The temperature is kept in hundredths (70 stands for 0.7).
pub struct LlmConfig {
    pub provider: LlmProvider,
    pub api_key: String,
    pub model: String,
    pub base_url: String,
    pub max_tokens: Option<u32>,
    pub temperature_centi: Option<u32>,
    pub stream: bool,
}

#[derive(Debug, Clone, Copy, PartialEq, Eq, Structural)]
pub enum LlmConfigError {
    EmptyModel,
    EmptyBaseUrl,
    MissingApiKey,
    TemperatureOutOfRange,
    MaxTokensOutOfRange,
}

pub open spec fn config_error(c: LlmConfig) -> Option<LlmConfigError> {
    if c.model@.len() == 0 {
        Some(LlmConfigError::EmptyModel)
    } else if c.base_url@.len() == 0 {
        Some(LlmConfigError::EmptyBaseUrl)
    } else if c.provider != LlmProvider::Local && c.api_key@.len() == 0 {
        Some(LlmConfigError::MissingApiKey)
    } else if c.temperature_centi matches Some(t) && t > 200 {
        Some(LlmConfigError::TemperatureOutOfRange)
    } else if c.max_tokens matches Some(m) && (m == 0 || m > 32000) {
        Some(LlmConfigError::MaxTokensOutOfRange)
    } else {
        None
    }
}

impl LlmConfig {
    /// OpenAI's endpoint with `gpt-4`, 2000 tokens, temperature 0.7, streaming, no key.
    pub fn default_config() -> (r: LlmConfig)
        ensures
            r.provider == LlmProvider::OpenAI,
            r.api_key@.len() == 0,
            r.max_tokens == Some(2000u32),
            r.temperature_centi == Some(70u32),
            r.stream,
    {
        LlmConfig {
            provider: LlmProvider::OpenAI,
            api_key: String::new(),
            model: "gpt-4".to_string(),
            base_url: "https://api.openai.com/v1".to_string(),
            max_tokens: Some(2000),
            temperature_centi: Some(70),
            stream: true,
        }
    }

    /// A model and a base URL are required; cloud providers need an API key; the temperature
    /// lies in [0, 2] and the token limit in [1, 32000].
    pub fn validate(&self) -> (r: Result<(), LlmConfigError>)
        ensures
            config_error(*self) matches Some(e) ==> r == Err::<(), _>(e),
            config_error(*self) is None ==> r is Ok,
    {
        if self.model.as_str().is_empty() {
            return Err(LlmConfigError::EmptyModel);
        }
        if self.base_url.as_str().is_empty() {
            return Err(LlmConfigError::EmptyBaseUrl);
        }
        if self.provider != LlmProvider::Local && self.api_key.as_str().is_empty() {
            return Err(LlmConfigError::MissingApiKey);
        }
        if let Some(t) = self.temperature_centi {
            if t > 200 {
                return Err(LlmConfigError::TemperatureOutOfRange);
            }
        }
        if let Some(m) = self.max_tokens {
            if m == 0 || m > 32000 {
                return Err(LlmConfigError::MaxTokensOutOfRange);
            }
        }
        Ok(())
    }
}

#[derive(Debug)]
/// One chat turn as the endpoint takes it.
pub struct ChatMessage {
    pub role: String,
    pub content: String,
}

#[derive(Debug)]
pub struct ChatDelta {
    pub role: Option<String>,
    pub content: Option<String>,
}

#[derive(Debug)]
pub struct ChatChoice {
    pub index: u32,
    pub message: Option<ChatMessage>,
    pub delta: Option<ChatDelta>,
    pub finish_reason: Option<String>,
}

#[derive(Debug)]
pub struct ChatResponse {
    pub id: String,
    pub object: String,
    pub created: u64,
    pub model: String,
    pub choices: Vec<ChatChoice>,
}

/// The decimal digits of `n`.
pub open spec fn decimal_text(n: nat) -> Seq<char>
    decreases n,
{
    if n < 10 {
        seq![digit_char(n)]
    } else {
        decimal_text(n / 10).push(digit_char(n % 10))
    }
}

pub open spec fn digit_char(d: nat) -> char {
    if d == 0 { '0' } else if d == 1 { '1' } else if d == 2 { '2' } else if d == 3 { '3' }
    else if d == 4 { '4' } else if d == 5 { '5' } else if d == 6 { '6' } else if d == 7 { '7' }
    else if d == 8 { '8' } else { '9' }
}

fn digit(d: u64) -> (r: char)
    requires
        d < 10,
    ensures
        r == digit_char(d as nat),
{
    if d == 0 { '0' } else if d == 1 { '1' } else if d == 2 { '2' } else if d == 3 { '3' }
    else if d == 4 { '4' } else if d == 5 { '5' } else if d == 6 { '6' } else if d == 7 { '7' }
    else if d == 8 { '8' } else { '9' }
}

/// Appends the decimal digits of `n`.
pub fn push_decimal(s: &mut String, n: u64)
    ensures
        final(s)@ == old(s)@ + decimal_text(n as nat),
    decreases n,
{
    if n >= 10 {
        push_decimal(s, n / 10);
    }
    push_char(s, digit(n % 10));
}

/// A relevance in hundredths written with two decimals (`90` gives `0.90`).
pub open spec fn relevance_text(r: nat) -> Seq<char> {
    decimal_text(r / 100).push('.') + seq![digit_char((r % 100) / 10), digit_char(r % 10)]
}

pub fn push_relevance(s: &mut String, r: u32)
    ensures
        final(s)@ == old(s)@ + relevance_text(r as nat),
{
    let ghost s0 = s@;
    push_decimal(s, (r / 100) as u64);
    push_char(s, '.');
    push_char(s, digit(((r % 100) / 10) as u64));
    push_char(s, digit((r % 10) as u64));
    proof {
        assert(s@ =~= s0 + relevance_text(r as nat));
    }
}

pub open spec fn base_prompt() -> Seq<char> {
    "You are MindKB, an assistant that answers questions about the user's documents. Answer in the language of the question.\n\n"@
}

pub open spec fn no_context_prompt() -> Seq<char> {
    "No relevant documents were found for the current query. Say so, then answer from general knowledge.\n"@
}

pub open spec fn context_header() -> Seq<char> {
    "Relevant passages from the user's documents:\n\n"@
}

pub open spec fn context_footer() -> Seq<char> {
    "Base the answer on these passages and name the documents it draws on.\n"@
}

/// The block that presents passage number `i` (counted from 1).
pub open spec fn context_block(i: nat, c: ContextChunk) -> Seq<char> {
    "--- Document "@ + decimal_text(i) + " (filename: "@ + c.filename@ + ", relevance: "@
        + relevance_text(c.relevance as nat) + ")\n"@ + c.content@ + "\n\n"@
}

pub open spec fn context_blocks(cs: Seq<ContextChunk>) -> Seq<char>
    decreases cs.len(),
{
    if cs.len() == 0 {
        Seq::empty()
    } else {
        context_blocks(cs.drop_last()) + context_block(cs.len() as nat, cs.last())
    }
}

/// The system prompt: the base preamble, then either the no-context preamble or the
/// passages between a header and a footer.
pub open spec fn system_prompt(cs: Seq<ContextChunk>) -> Seq<char> {
    if cs.len() == 0 {
        base_prompt() + no_context_prompt()
    } else {
        base_prompt() + context_header() + context_blocks(cs) + context_footer()
    }
}

pub fn build_system_message(context_chunks: &Vec<ContextChunk>) -> (r: String)
    requires
        context_chunks.len() < u64::MAX,
    ensures
        r@ == system_prompt(context_chunks@),
{
    let mut m = "You are MindKB, an assistant that answers questions about the user's documents. Answer in the language of the question.\n\n".to_string();
    if context_chunks.len() == 0 {
        push_text(&mut m, "No relevant documents were found for the current query. Say so, then answer from general knowledge.\n");
        return m;
    }
    push_text(&mut m, "Relevant passages from the user's documents:\n\n");
    let ghost head = m@;
    let mut i: usize = 0;
    while i < context_chunks.len()
        invariant
            i <= context_chunks.len() < u64::MAX,
            m@ == head + context_blocks(context_chunks@.subrange(0, i as int)),
        decreases context_chunks.len() - i,
    {
        let c = &context_chunks[i];
        let ghost before = m@;
        push_text(&mut m, "--- Document ");
        push_decimal(&mut m, (i + 1) as u64);
        push_text(&mut m, " (filename: ");
        push_text(&mut m, c.filename.as_str());
        push_text(&mut m, ", relevance: ");
        push_relevance(&mut m, c.relevance);
        push_text(&mut m, ")\n");
        push_text(&mut m, c.content.as_str());
        push_text(&mut m, "\n\n");
        proof {
            let sub = context_chunks@.subrange(0, i + 1);
            assert(sub.drop_last() =~= context_chunks@.subrange(0, i as int));
            assert(sub.last() == *c);
            assert(m@ =~= before + context_block((i + 1) as nat, *c));
        }
        i = i + 1;
    }
    push_text(&mut m, "Base the answer on these passages and name the documents it draws on.\n");
    proof {
        assert(context_chunks@.subrange(0, context_chunks@.len() as int) =~= context_chunks@);
    }
    m
}

/// The turns sent to the endpoint: the system prompt, then the conversation's messages with
/// their roles in lower case.
pub fn build_chat_messages(history: &Vec<Message>, context_chunks: &Vec<ContextChunk>) -> (r: Vec<ChatMessage>)
    requires
        context_chunks.len() < u64::MAX,
    ensures
        r.len() == history.len() + 1,
        r@[0].role@ == "system"@,
        r@[0].content@ == system_prompt(context_chunks@),
        forall|k: int| 0 <= k < history.len() ==> (#[trigger] r@[k + 1]).role@ == role_wire_name(history@[k].role)
            && r@[k + 1].content == history@[k].content,
{
    let mut out: Vec<ChatMessage> = Vec::new();
    out.push(ChatMessage { role: "system".to_string(), content: build_system_message(context_chunks) });
    let mut i: usize = 0;
    while i < history.len()
        invariant
            i <= history.len(),
            out.len() == i + 1,
            out@[0].role@ == "system"@,
            out@[0].content@ == system_prompt(context_chunks@),
            forall|k: int| 0 <= k < i ==> (#[trigger] out@[k + 1]).role@ == role_wire_name(history@[k].role)
                && out@[k + 1].content == history@[k].content,
        decreases history.len() - i,
    {
        out.push(ChatMessage { role: history[i].role.wire_name(), content: history[i].content.clone() });
        i = i + 1;
    }
    out
}

} // verus!
