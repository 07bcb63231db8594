//! A chat turn: framing of the reply stream, and the decisions between persisting the
//! question, retrieval, streaming and persisting the answer.
use vstd::prelude::*;
use crate::text::{chars_of, trim, trim_range, string_of, str_eq};

verus! {

/// A complete line of the reply stream: a payload, or the terminator.
#[derive(Debug, Clone)]
pub enum SseLine {
    Data(String),
    Done,
}

pub open spec fn sse_view(l: SseLine) -> Option<Seq<char>> {
    match l {
        SseLine::Data(p) => Some(p@),
        SseLine::Done => None,
    }
}

pub open spec fn data_prefix() -> Seq<char> {
    "data: "@
}

/// What a trimmed line means: nothing (`None`), the terminator (`Some(None)`), or a payload.
pub open spec fn line_kind(line: Seq<char>) -> Option<Option<Seq<char>>> {
    if line.len() >= 6 && line.subrange(0, 6) == data_prefix() {
        let p = line.subrange(6, line.len() as int);
        if trim(p) == "[DONE]"@ { Some(None) } else { Some(Some(p)) }
    } else {
        None
    }
}

/// The meaningful complete lines of `s` from position `i`, the current line starting at
/// `start`; returns them and where the unfinished line starts.
pub open spec fn sse_scan(s: Seq<char>, i: int, start: int, acc: Seq<Option<Seq<char>>>) -> (Seq<Option<Seq<char>>>, int)
    decreases s.len() - i,
{
    if i < 0 || i >= s.len() {
        (acc, start)
    } else if s[i] == '\n' {
        let k = line_kind(trim(s.subrange(start, i)));
        sse_scan(s, i + 1, i + 1, match k {
            Some(x) => acc.push(x),
            None => acc,
        })
    } else {
        sse_scan(s, i + 1, start, acc)
    }
}

#[derive(Debug)]
/// Cuts the reply stream into lines as its bytes arrive.
pub struct SseDecoder {
    pub pending: Vec<char>,
}

impl SseDecoder {
    pub fn new() -> (r: SseDecoder)
        ensures
            r.pending@.len() == 0,
    {
        SseDecoder { pending: Vec::new() }
    }

    /// Adds a piece of the stream; returns the meaningful lines it completes, in order, and
    /// keeps the unfinished rest.
    pub fn push_chunk(&mut self, chunk: &str) -> (r: Vec<SseLine>)
        ensures
            ({
                let s = old(self).pending@ + chunk@;
                let (lines, st) = sse_scan(s, 0, 0, Seq::empty());
                &&& r@.map_values(|l: SseLine| sse_view(l)) == lines
                &&& final(self).pending@ == s.subrange(st, s.len() as int)
            }),
    {
        let c = chars_of(chunk);
        let mut v: Vec<char> = Vec::new();
        let mut k: usize = 0;
        while k < self.pending.len()
            invariant
                k <= self.pending.len(),
                v@ == self.pending@.subrange(0, k as int),
            decreases self.pending.len() - k,
        {
            v.push(self.pending[k]);
            k = k + 1;
            proof {
                assert(v@ =~= self.pending@.subrange(0, k as int));
            }
        }
        let mut k2: usize = 0;
        let ghost p = self.pending@;
        while k2 < c.len()
            invariant
                k2 <= c.len(),
                v@ == p + c@.subrange(0, k2 as int),
            decreases c.len() - k2,
        {
            v.push(c[k2]);
            k2 = k2 + 1;
            proof {
                assert(v@ =~= p + c@.subrange(0, k2 as int));
            }
        }
        proof {
            assert(self.pending@.subrange(0, self.pending@.len() as int) =~= self.pending@);
            assert(c@.subrange(0, c@.len() as int) =~= c@);
        }
        let ghost s = v@;
        let mut out: Vec<SseLine> = Vec::new();
        let mut start: usize = 0;
        let mut i: usize = 0;
        proof {
            assert(out@.map_values(|l: SseLine| sse_view(l)) =~= Seq::<Option<Seq<char>>>::empty());
        }
        while i < v.len()
            invariant
                s == v@,
                start <= i <= v.len(),
                sse_scan(s, i as int, start as int, out@.map_values(|l: SseLine| sse_view(l)))
                    == sse_scan(s, 0, 0, Seq::empty()),
            decreases v.len() - i,
        {
            if v[i] == '\n' {
                let (a, b) = trim_range(&v, start, i);
                match Self::classify(&v, a, b) {
                    Some(l) => {
                        proof {
                            assert(out@.push(l).map_values(|l: SseLine| sse_view(l))
                                =~= out@.map_values(|l: SseLine| sse_view(l)).push(sse_view(l)));
                        }
                        out.push(l);
                    },
                    None => {},
                }
                start = i + 1;
            }
            i = i + 1;
        }
        let mut rest: Vec<char> = Vec::new();
        let mut j: usize = start;
        while j < v.len()
            invariant
                start <= j <= v.len(),
                rest@ == v@.subrange(start as int, j as int),
            decreases v.len() - j,
        {
            rest.push(v[j]);
            j = j + 1;
            proof {
                assert(rest@ =~= v@.subrange(start as int, j as int));
            }
        }
        self.pending = rest;
        out
    }

    /// The meaning of the trimmed line `v[a..b]` (see `line_kind`).
    fn classify(v: &Vec<char>, a: usize, b: usize) -> (r: Option<SseLine>)
        requires
            a <= b <= v.len(),
        ensures
            line_kind(v@.subrange(a as int, b as int)) matches Some(x) ==> (r matches Some(l) && sse_view(l) == x),
            line_kind(v@.subrange(a as int, b as int)) is None ==> r is None,
    {
        let ghost line = v@.subrange(a as int, b as int);
        if b - a < 6 {
            return None;
        }
        let prefix = string_of(v, a, a + 6);
        proof {
            assert(prefix@ =~= line.subrange(0, 6));
        }
        if !str_eq(prefix.as_str(), "data: ") {
            return None;
        }
        let (x, y) = trim_range(v, a + 6, b);
        let payload_trim = string_of(v, x, y);
        let payload = string_of(v, a + 6, b);
        proof {
            assert(payload@ =~= line.subrange(6, line.len() as int));
        }
        if str_eq(payload_trim.as_str(), "[DONE]") {
            Some(SseLine::Done)
        } else {
            Some(SseLine::Data(payload))
        }
    }
}

/// What one decoded payload asks for: a token to show when its content is not empty, and
/// whether the reply is finished (`finish_reason` is `stop` or `length`).
pub fn on_payload(content: Option<String>, finish_reason: Option<String>) -> (r: (Option<String>, bool))
    ensures
        match content {
            Some(c) => if c@.len() > 0 { r.0 == Some(c) } else { r.0 is None },
            None => r.0 is None,
        },
        r.1 == (finish_reason matches Some(f) && (f@ == "stop"@ || f@ == "length"@)),
{
    let token = match content {
        Some(c) => if c.as_str().is_empty() { None } else { Some(c) },
        None => None,
    };
    let finished = match &finish_reason {
        Some(f) => str_eq(f.as_str(), "stop") || str_eq(f.as_str(), "length"),
        None => false,
    };
    (token, finished)
}

} // verus!

verus! {

#[derive(Debug, Clone, Copy, PartialEq, Eq, Structural)]
pub enum TurnState {
    Idle,
    PersistingUser,
    Retrieving,
    Streaming,
    PersistingAssistant,
    PersistingSources,
    Done,
    Cancelled,
    Failed,
}

/// What the outside reports to the turn.
#[derive(Debug, Clone, Copy, PartialEq, Eq, Structural)]
pub enum TurnEvent {
    UserMessage { valid: bool },
    UserPersisted { ok: bool },
    /// Retrieval finished; `found` is false when it found nothing or failed.
    Retrieved { found: bool },
    Token,
    /// The reply stream ended; `empty` when it carried no text.
    StreamEnded { ok: bool, empty: bool },
    AssistantPersisted { ok: bool },
    SourcesPersisted { ok: bool },
    Cancel,
}

#[derive(Debug, Clone, Copy, PartialEq, Eq, Structural)]
pub enum TurnAction {
    RejectMessage,
    PersistUser,
    /// Retrieve passages for the message: the hybrid search that
    /// `search::turn_retrieval_envelope` builds; a failure counts as finding nothing.
    Retrieve,
    /// Open the reply stream; with context, first emit the context event.
    OpenStream { with_context: bool },
    EmitToken,
    PersistAssistant,
    PersistSources,
    EmitEnd,
    EmitError,
    AbortStream,
    Nothing,
}

pub open spec fn turn_open(s: TurnState) -> bool {
    s == TurnState::PersistingUser || s == TurnState::Retrieving || s == TurnState::Streaming
        || s == TurnState::PersistingAssistant || s == TurnState::PersistingSources
}

pub open spec fn turn_step(s: TurnState, e: TurnEvent) -> (TurnState, TurnAction) {
    if e == TurnEvent::Cancel {
        if turn_open(s) { (TurnState::Cancelled, TurnAction::AbortStream) } else { (s, TurnAction::Nothing) }
    } else if !turn_open(s) {
        match e {
            TurnEvent::UserMessage { valid } =>
                if valid { (TurnState::PersistingUser, TurnAction::PersistUser) } else { (s, TurnAction::RejectMessage) },
            _ => (s, TurnAction::Nothing),
        }
    } else {
        match (s, e) {
            (TurnState::PersistingUser, TurnEvent::UserPersisted { ok }) =>
                if ok { (TurnState::Retrieving, TurnAction::Retrieve) } else { (TurnState::Failed, TurnAction::EmitError) },
            (TurnState::Retrieving, TurnEvent::Retrieved { found }) =>
                (TurnState::Streaming, TurnAction::OpenStream { with_context: found }),
            (TurnState::Streaming, TurnEvent::Token) => (TurnState::Streaming, TurnAction::EmitToken),
            (TurnState::Streaming, TurnEvent::StreamEnded { ok, empty }) =>
                if ok && !empty { (TurnState::PersistingAssistant, TurnAction::PersistAssistant) } else { (TurnState::Failed, TurnAction::EmitError) },
            (TurnState::PersistingAssistant, TurnEvent::AssistantPersisted { ok }) =>
                if ok { (TurnState::PersistingSources, TurnAction::PersistSources) } else { (TurnState::Failed, TurnAction::EmitError) },
            (TurnState::PersistingSources, TurnEvent::SourcesPersisted { ok }) =>
                if ok { (TurnState::Done, TurnAction::EmitEnd) } else { (TurnState::Failed, TurnAction::EmitError) },
            _ => (s, TurnAction::Nothing),
        }
    }
}

/// One step of a chat turn: the next state and the action to perform.
pub fn turn_next(s: TurnState, e: TurnEvent) -> (r: (TurnState, TurnAction))
    ensures
        r == turn_step(s, e),
{
    let open = s == TurnState::PersistingUser || s == TurnState::Retrieving || s == TurnState::Streaming
        || s == TurnState::PersistingAssistant || s == TurnState::PersistingSources;
    if e == TurnEvent::Cancel {
        return if open { (TurnState::Cancelled, TurnAction::AbortStream) } else { (s, TurnAction::Nothing) };
    }
    if !open {
        return match e {
            TurnEvent::UserMessage { valid } =>
                if valid { (TurnState::PersistingUser, TurnAction::PersistUser) } else { (s, TurnAction::RejectMessage) },
            _ => (s, TurnAction::Nothing),
        };
    }
    match (s, e) {
        (TurnState::PersistingUser, TurnEvent::UserPersisted { ok }) =>
            if ok { (TurnState::Retrieving, TurnAction::Retrieve) } else { (TurnState::Failed, TurnAction::EmitError) },
        (TurnState::Retrieving, TurnEvent::Retrieved { found }) =>
            (TurnState::Streaming, TurnAction::OpenStream { with_context: found }),
        (TurnState::Streaming, TurnEvent::Token) => (TurnState::Streaming, TurnAction::EmitToken),
        (TurnState::Streaming, TurnEvent::StreamEnded { ok, empty }) =>
            if ok && !empty { (TurnState::PersistingAssistant, TurnAction::PersistAssistant) } else { (TurnState::Failed, TurnAction::EmitError) },
        (TurnState::PersistingAssistant, TurnEvent::AssistantPersisted { ok }) =>
            if ok { (TurnState::PersistingSources, TurnAction::PersistSources) } else { (TurnState::Failed, TurnAction::EmitError) },
        (TurnState::PersistingSources, TurnEvent::SourcesPersisted { ok }) =>
            if ok { (TurnState::Done, TurnAction::EmitEnd) } else { (TurnState::Failed, TurnAction::EmitError) },
        _ => (s, TurnAction::Nothing),
    }
}

/// The order of a turn holds at every step: the question is persisted before retrieval
/// starts, only a non-empty reply is written, the end is announced only once the answer and
/// its sources are both written, and a cancelled turn writes no answer and announces no end.
pub proof fn lemma_turn_order(s: TurnState, e: TurnEvent)
    ensures
        turn_step(s, e).1 == TurnAction::Retrieve ==> s == TurnState::PersistingUser && e == (TurnEvent::UserPersisted { ok: true }),
        turn_step(s, e).1 == TurnAction::EmitEnd ==> s == TurnState::PersistingSources && e == (TurnEvent::SourcesPersisted { ok: true }),
        turn_step(s, e).1 == TurnAction::PersistAssistant ==> s == TurnState::Streaming && e == (TurnEvent::StreamEnded { ok: true, empty: false }),
        s == TurnState::Cancelled ==> turn_step(s, e).1 != TurnAction::PersistAssistant && turn_step(s, e).1 != TurnAction::EmitEnd,
        e == TurnEvent::Cancel && turn_open(s) ==> turn_step(s, e) == (TurnState::Cancelled, TurnAction::AbortStream),
{
}

} // verus!
