//! Requests to the database engine's search: the hybrid envelope and its SQL carrier.
use vstd::prelude::*;
use crate::text::{chars_of, push_char, push_text};
use crate::llm::{decimal_text, push_decimal, relevance_text, push_relevance};

verus! {

/// Weight of the semantic part in the retrieval service's hybrid search, in hundredths.
pub const SEMANTIC_BOOST_CENTI: u32 = 70;
/// Similarity threshold of the pure-vector path, in hundredths.
pub const SIMILARITY_THRESHOLD_CENTI: u32 = 30;

/// A lower-case hexadecimal digit.
pub open spec fn hex_char(d: nat) -> char {
    if d < 10 { ((d + 48) as u32) as char } else { ((d + 87) as u32) as char }
}

/// The value of a lower-case hexadecimal digit.
pub open spec fn hex_value(c: char) -> nat {
    if '0' <= c && c <= '9' { (c as u32 - 48) as nat } else if 'a' <= c && c <= 'f' { (c as u32 - 87) as nat } else { 0 }
}

/// How one character is written inside a JSON string.
pub open spec fn json_char(c: char) -> Seq<char> {
    if c == '"' {
        seq!['\\', '"']
    } else if c == '\\' {
        seq!['\\', '\\']
    } else if c == '\n' {
        seq!['\\', 'n']
    } else if c == '\r' {
        seq!['\\', 'r']
    } else if c == '\t' {
        seq!['\\', 't']
    } else if (c as u32) < 32 {
        seq!['\\', 'u', '0', '0', hex_char((c as u32 / 16) as nat), hex_char((c as u32 % 16) as nat)]
    } else {
        seq![c]
    }
}

/// A text written as the body of a JSON string.
pub open spec fn json_escape(s: Seq<char>) -> Seq<char>
    decreases s.len(),
{
    if s.len() == 0 {
        s
    } else {
        json_escape(s.drop_last()) + json_char(s.last())
    }
}

/// The text a JSON string body stands for.
pub open spec fn json_unescape(s: Seq<char>) -> Seq<char>
    decreases s.len(),
{
    if s.len() == 0 {
        s
    } else if s[0] == '\\' && s.len() >= 2 && (s[1] == '"' || s[1] == '\\') {
        seq![s[1]] + json_unescape(s.subrange(2, s.len() as int))
    } else if s[0] == '\\' && s.len() >= 2 && s[1] == 'n' {
        seq!['\n'] + json_unescape(s.subrange(2, s.len() as int))
    } else if s[0] == '\\' && s.len() >= 2 && s[1] == 'r' {
        seq!['\r'] + json_unescape(s.subrange(2, s.len() as int))
    } else if s[0] == '\\' && s.len() >= 2 && s[1] == 't' {
        seq!['\t'] + json_unescape(s.subrange(2, s.len() as int))
    } else if s[0] == '\\' && s.len() >= 6 && s[1] == 'u' && s[2] == '0' && s[3] == '0' {
        seq![((hex_value(s[4]) * 16 + hex_value(s[5])) as u32) as char] + json_unescape(s.subrange(6, s.len() as int))
    } else {
        seq![s[0]] + json_unescape(s.subrange(1, s.len() as int))
    }
}

proof fn lemma_unescape_char(c: char, t: Seq<char>)
    ensures
        json_unescape(json_char(c) + t) == seq![c] + json_unescape(t),
{
    let e = json_char(c) + t;
    if c == '"' || c == '\\' || c == '\n' || c == '\r' || c == '\t' {
        assert(e.subrange(2, e.len() as int) =~= t);
    } else if (c as u32) < 32 {
        let v = c as u32;
        let hi = (v / 16) as nat;
        let lo = (v % 16) as nat;
        assert(hex_value(hex_char(hi)) == hi);
        assert(hex_value(hex_char(lo)) == lo);
        assert(e.subrange(6, e.len() as int) =~= t);
        assert(((hi * 16 + lo) as u32) == v);
        assert((v as char) == c);
    } else {
        assert(e.subrange(1, e.len() as int) =~= t);
    }
}

proof fn lemma_escape_front(c: char, s: Seq<char>)
    ensures
        json_escape(seq![c] + s) == json_char(c) + json_escape(s),
    decreases s.len(),
{
    if s.len() == 0 {
        assert((seq![c] + s).drop_last() =~= Seq::<char>::empty());
        assert(json_escape(Seq::<char>::empty()) =~= Seq::<char>::empty());
        assert(json_escape(seq![c] + s) =~= json_char(c));
    } else {
        assert((seq![c] + s).drop_last() =~= seq![c] + s.drop_last());
        lemma_escape_front(c, s.drop_last());
        assert((seq![c] + s).last() == s.last());
        assert(json_escape(seq![c] + s) =~= json_char(c) + json_escape(s));
    }
}

/// Writing a text as a JSON string body and reading it back gives the text again.
pub proof fn lemma_json_round_trip(s: Seq<char>)
    ensures
        json_unescape(json_escape(s)) == s,
    decreases s.len(),
{
    if s.len() > 0 {
        let rest = s.subrange(1, s.len() as int);
        assert(s =~= seq![s[0]] + rest);
        lemma_escape_front(s[0], rest);
        lemma_unescape_char(s[0], json_escape(rest));
        lemma_json_round_trip(rest);
    }
}

pub(crate) fn hex_digit(d: u32) -> (r: char)
    requires
        d < 16,
    ensures
        r == hex_char(d as nat),
{
    let b: u8 = if d < 10 { (d + 48) as u8 } else { (d + 87) as u8 };
    b as char
}

/// Appends `s` written as the body of a JSON string.
pub fn push_json_escaped(out: &mut String, s: &str)
    ensures
        final(out)@ == old(out)@ + json_escape(s@),
{
    let v = chars_of(s);
    let ghost base = out@;
    let mut i: usize = 0;
    proof {
        assert(v@.subrange(0, 0) =~= Seq::<char>::empty());
        assert(out@ =~= base + json_escape(v@.subrange(0, 0)));
    }
    while i < v.len()
        invariant
            i <= v.len(),
            out@ == base + json_escape(v@.subrange(0, i as int)),
        decreases v.len() - i,
    {
        let c = v[i];
        let ghost before = out@;
        if c == '"' {
            push_char(out, '\\');
            push_char(out, '"');
        } else if c == '\\' {
            push_char(out, '\\');
            push_char(out, '\\');
        } else if c == '\n' {
            push_char(out, '\\');
            push_char(out, 'n');
        } else if c == '\r' {
            push_char(out, '\\');
            push_char(out, 'r');
        } else if c == '\t' {
            push_char(out, '\\');
            push_char(out, 't');
        } else if (c as u32) < 32 {
            push_char(out, '\\');
            push_char(out, 'u');
            push_char(out, '0');
            push_char(out, '0');
            push_char(out, hex_digit(c as u32 / 16));
            push_char(out, hex_digit(c as u32 % 16));
        } else {
            push_char(out, c);
        }
        proof {
            let t = v@.subrange(0, i + 1);
            assert(t.drop_last() =~= v@.subrange(0, i as int));
            assert(out@ =~= before + json_char(c));
            assert(out@ =~= base + json_escape(t));
        }
        i = i + 1;
    }
    proof {
        assert(v@.subrange(0, v@.len() as int) =~= v@);
    }
}

/// `s` with every backslash and single quote preceded by a backslash, as a quoted SQL
/// literal needs.
pub open spec fn sql_escape(s: Seq<char>) -> Seq<char>
    decreases s.len(),
{
    if s.len() == 0 {
        s
    } else {
        sql_escape(s.drop_last()) + if s.last() == '\\' || s.last() == '\'' { seq!['\\', s.last()] } else { seq![s.last()] }
    }
}

/// Appends `s` escaped for a quoted SQL literal.
pub fn push_sql_escaped(out: &mut String, s: &str)
    ensures
        final(out)@ == old(out)@ + sql_escape(s@),
{
    let v = chars_of(s);
    let ghost base = out@;
    let mut i: usize = 0;
    proof {
        assert(v@.subrange(0, 0) =~= Seq::<char>::empty());
        assert(out@ =~= base + sql_escape(v@.subrange(0, 0)));
    }
    while i < v.len()
        invariant
            i <= v.len(),
            out@ == base + sql_escape(v@.subrange(0, i as int)),
        decreases v.len() - i,
    {
        if v[i] == '\\' || v[i] == '\'' {
            push_char(out, '\\');
        }
        push_char(out, v[i]);
        proof {
            let t = v@.subrange(0, i + 1);
            assert(t.drop_last() =~= v@.subrange(0, i as int));
            assert(out@ =~= base + sql_escape(t));
        }
        i = i + 1;
    }
    proof {
        assert(v@.subrange(0, v@.len() as int) =~= v@);
    }
}

pub open spec fn envelope_head(query: Seq<char>, k: nat) -> Seq<char> {
    "{\"query\":{\"bool\":{\"must\":[{\"match\":{\"content\":\""@ + json_escape(query)
        + "\"}}]}},\"knn\":{\"field\":\"embedding\",\"k\":"@ + decimal_text(k)
        + ",\"num_candidates\":"@ + decimal_text(2 * k) + ",\"query_vector\":"@
}

pub open spec fn envelope_tail(boost_centi: nat, project: Option<Seq<char>>) -> Seq<char> {
    ",\"boost\":"@ + relevance_text(boost_centi) + "}"@
        + match project {
            Some(p) => ",\"filter\":{\"term\":{\"project_id\":\""@ + json_escape(p) + "\"}}"@,
            None => Seq::empty(),
        }
        + ",\"_source\":[\"id\",\"project_id\",\"document_id\",\"chunk_index\",\"content\",\"metadata\",\"_keyword_score\",\"_semantic_score\"]}"@
}

/// The hybrid search envelope: a full-text match on the query (written as a JSON string,
/// which reads back as the query: `lemma_json_round_trip`), a
/// nearest-neighbour part over `vector_json` with `k` results out of `2k` candidates and the
/// semantic weight `boost_centi` hundredths, an optional filter on the project, and the
/// fields to return.
pub open spec fn hybrid_envelope(query: Seq<char>, vector_json: Seq<char>, project: Option<Seq<char>>, k: nat, boost_centi: nat) -> Seq<char> {
    envelope_head(query, k) + vector_json + envelope_tail(boost_centi, project)
}

pub fn hybrid_search_envelope(query_text: &str, vector_json: &str, project_id: Option<&str>, limit: u64, boost_centi: u32) -> (r: String)
    requires
        limit <= u64::MAX / 2,
    ensures
        r@ == hybrid_envelope(query_text@, vector_json@, match project_id {
            Some(p) => Some(p@),
            None => None,
        }, limit as nat, boost_centi as nat),
{
    let mut s = "{\"query\":{\"bool\":{\"must\":[{\"match\":{\"content\":\"".to_string();
    push_json_escaped(&mut s, query_text);
    push_text(&mut s, "\"}}]}},\"knn\":{\"field\":\"embedding\",\"k\":");
    push_decimal(&mut s, limit);
    push_text(&mut s, ",\"num_candidates\":");
    push_decimal(&mut s, limit * 2);
    push_text(&mut s, ",\"query_vector\":");
    let ghost head = s@;
    push_text(&mut s, vector_json);
    let ghost mid = s@;
    push_text(&mut s, ",\"boost\":");
    push_relevance(&mut s, boost_centi);
    push_text(&mut s, "}");
    match project_id {
        Some(p) => {
            push_text(&mut s, ",\"filter\":{\"term\":{\"project_id\":\"");
            push_json_escaped(&mut s, p);
            push_text(&mut s, "\"}}");
        },
        None => {},
    }
    push_text(&mut s, ",\"_source\":[\"id\",\"project_id\",\"document_id\",\"chunk_index\",\"content\",\"metadata\",\"_keyword_score\",\"_semantic_score\"]}");
    proof {
        let pv = match project_id { Some(p) => Some(p@), None => None };
        assert(head =~= envelope_head(query_text@, limit as nat));
        assert(s@ =~= mid + envelope_tail(boost_centi as nat, pv));
    }
    s
}

/// The statement that hands an envelope to the engine, as a quoted SQL literal.
pub open spec fn set_param_statement(envelope: Seq<char>) -> Seq<char> {
    "SET @search_param = '"@ + sql_escape(envelope) + "'"@
}

pub fn search_param_statement(envelope: &str) -> (r: String)
    ensures
        r@ == set_param_statement(envelope@),
{
    let mut s = "SET @search_param = '".to_string();
    push_sql_escaped(&mut s, envelope);
    push_text(&mut s, "'");
    s
}

/// The query that runs the engine's hybrid search over the chunk table.
pub fn hybrid_search_query() -> (r: &'static str)
    ensures
        r@ == "SELECT dbms_hybrid_search.search('vector_documents', @search_param)"@,
{
    "SELECT dbms_hybrid_search.search('vector_documents', @search_param)"
}

} // verus!

verus! {

/// The passages a turn is grounded on: the search's hits, or none when the search failed.
pub fn context_or_empty<T, E>(result: Result<Vec<T>, E>) -> (r: Vec<T>)
    ensures
        result matches Ok(hits) ==> r@ == hits@,
        result is Err ==> r@.len() == 0,
{
    match result {
        Ok(hits) => hits,
        Err(_) => Vec::new(),
    }
}

} // verus!

verus! {

/// The retrieval request of a chat turn: a hybrid search of the user's message over the
/// turn's project, for `k` passages, with the semantic part weighted 0.7.
pub fn turn_retrieval_envelope(message: &str, vector_json: &str, project_id: &str, k: u64) -> (r: String)
    requires
        k <= u64::MAX / 2,
    ensures
        r@ == hybrid_envelope(message@, vector_json@, Some(project_id@), k as nat, SEMANTIC_BOOST_CENTI as nat),
{
    hybrid_search_envelope(message, vector_json, Some(project_id), k, SEMANTIC_BOOST_CENTI)
}

} // verus!
