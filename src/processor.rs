//! Turning cleaned document text into sentences and chunks.
use vstd::prelude::*;
use crate::text::{strings_view, is_ws, is_blank, is_white, trim, trim_range, string_of, chars_of};
use crate::models::document::{
    DocumentChunk, chunk_error, tokens_for, extension_of, mime_for_extension, path_extension,
    mime_type_for_extension, MAX_FILE_SIZE, MAX_CHUNK_TOKENS,
};
use crate::text::{lower_of, lowercase};

verus! {

/// Splits documents into chunks of at most `max_chunk_size` estimated tokens, each new chunk
/// starting with the last `chunk_overlap` words of the one before.
#[derive(Debug, Clone)]
pub struct DocumentProcessor {
    pub max_chunk_size: usize,
    pub chunk_overlap: usize,
}

/// Shortest line group, in characters, that the line-based fallback emits on its own.
pub const MIN_GROUP_CHARS: usize = 40;

pub open spec fn is_end_mark(c: char) -> bool {
    c == '.' || c == '!' || c == '?'
}

/// Scans `s` from `i`, with the current sentence starting at `start`; returns the sentences cut
/// at end marks and where the unfinished sentence starts.
pub open spec fn sentence_scan(s: Seq<char>, i: int, start: int, acc: Seq<Seq<char>>) -> (Seq<Seq<char>>, int)
    decreases s.len() - i,
{
    if i < 0 || i >= s.len() {
        (acc, start)
    } else if is_end_mark(s[i]) && trim(s.subrange(start, i + 1)).len() > 3 {
        sentence_scan(s, i + 1, i + 1, acc.push(trim(s.subrange(start, i + 1))))
    } else {
        sentence_scan(s, i + 1, start, acc)
    }
}

/// Adds a line to the group being built; a group long enough is emitted.
pub open spec fn add_line(cur: Seq<char>, groups: Seq<Seq<char>>, line: Seq<char>) -> (Seq<char>, Seq<Seq<char>>) {
    if line.len() == 0 {
        (cur, groups)
    } else {
        let c = if cur.len() == 0 { line } else { cur.push('\n') + line };
        if c.len() >= MIN_GROUP_CHARS { (Seq::empty(), groups.push(c)) } else { (c, groups) }
    }
}

/// The last, possibly short, group: appended to the previous one when it is too small.
pub open spec fn finish_groups(cur: Seq<char>, groups: Seq<Seq<char>>) -> Seq<Seq<char>> {
    if cur.len() == 0 {
        groups
    } else if cur.len() < MIN_GROUP_CHARS && groups.len() > 0 {
        groups.update(groups.len() - 1, groups.last().push('\n') + cur)
    } else {
        groups.push(cur)
    }
}

/// Groups the non-blank trimmed lines of `s` (from position `i`, the current line starting at
/// `line_start`) until each group reaches the minimum size.
pub open spec fn group_scan(s: Seq<char>, i: int, line_start: int, cur: Seq<char>, groups: Seq<Seq<char>>) -> Seq<Seq<char>>
    decreases s.len() - i,
{
    if i < 0 || i > s.len() {
        groups
    } else if i == s.len() {
        let (c, g) = add_line(cur, groups, trim(s.subrange(line_start, i)));
        finish_groups(c, g)
    } else if s[i] == '\n' {
        let (c, g) = add_line(cur, groups, trim(s.subrange(line_start, i)));
        group_scan(s, i + 1, i + 1, c, g)
    } else {
        group_scan(s, i + 1, line_start, cur, groups)
    }
}

/// Sentences of a text: cut after `.`, `!` or `?` once the sentence holds more than three
/// characters, each trimmed; the rest of the text, if not blank, is the last sentence. A text
/// with no such cut is split into groups of lines instead.
pub open spec fn sentences_of(s: Seq<char>) -> Seq<Seq<char>> {
    let (acc, st) = sentence_scan(s, 0, 0, Seq::empty());
    if acc.len() == 0 {
        group_scan(s, 0, 0, Seq::empty(), Seq::empty())
    } else {
        let rest = trim(s.subrange(st, s.len() as int));
        if rest.len() > 0 { acc.push(rest) } else { acc }
    }
}

/// Splits `text` into sentences (see `sentences_of`).
pub fn split_sentences(text: &str) -> (r: Vec<String>)
    ensures
        strings_view(r@) == sentences_of(text@),
{
    let v = chars_of(text);
    let ghost s = v@;
    let mut acc: Vec<String> = Vec::new();
    let mut start: usize = 0;
    let mut i: usize = 0;
    proof {
        assert(strings_view(acc@) =~= Seq::<Seq<char>>::empty());
    }
    while i < v.len()
        invariant
            s == v@,
            0 <= start <= i <= v.len(),
            sentence_scan(s, i as int, start as int, strings_view(acc@)) == sentence_scan(s, 0, 0, Seq::empty()),
        decreases v.len() - i,
    {
        let c = v[i];
        if c == '.' || c == '!' || c == '?' {
            let (a, b) = trim_range(&v, start, i + 1);
            if b - a > 3 {
                let piece = string_of(&v, a, b);
                proof {
                    assert(strings_view(acc@.push(piece)) =~= strings_view(acc@).push(piece@));
                }
                acc.push(piece);
                start = i + 1;
            }
        }
        i = i + 1;
    }
    proof {
        assert(strings_view(Seq::<String>::empty()) =~= Seq::<Seq<char>>::empty());
    }
    if acc.len() == 0 {
        return group_lines(&v);
    }
    let (a, b) = trim_range(&v, start, v.len());
    if b > a {
        let piece = string_of(&v, a, b);
        proof {
            assert(strings_view(acc@.push(piece)) =~= strings_view(acc@).push(piece@));
        }
        acc.push(piece);
    }
    acc
}

/// Appends `v[a..b]` to `cur`.
fn append_range(cur: &mut Vec<char>, v: &Vec<char>, a: usize, b: usize)
    requires
        a <= b <= v.len(),
    ensures
        final(cur)@ == old(cur)@ + v@.subrange(a as int, b as int),
{
    let ghost base = cur@;
    let mut k: usize = a;
    while k < b
        invariant
            a <= k <= b <= v.len(),
            cur@ == base + v@.subrange(a as int, k as int),
        decreases b - k,
    {
        cur.push(v[k]);
        k = k + 1;
        proof {
            assert(cur@ =~= base + v@.subrange(a as int, k as int));
        }
    }
}

/// Appends `line` to `cur`, with a newline between when `cur` is not empty.
fn join_line(cur: &mut Vec<char>, v: &Vec<char>, a: usize, b: usize)
    requires
        a <= b <= v.len(),
    ensures
        final(cur)@ == (if old(cur)@.len() == 0 {
            v@.subrange(a as int, b as int)
        } else {
            old(cur)@.push('\n') + v@.subrange(a as int, b as int)
        }),
{
    if cur.len() > 0 {
        cur.push('\n');
    }
    append_range(cur, v, a, b);
    proof {
        if old(cur)@.len() == 0 {
            assert(old(cur)@ + v@.subrange(a as int, b as int) =~= v@.subrange(a as int, b as int));
        }
    }
}

fn vec_to_string(c: &Vec<char>) -> (r: String)
    ensures
        r@ == c@,
{
    let r = string_of(c, 0, c.len());
    proof {
        assert(c@.subrange(0, c@.len() as int) =~= c@);
    }
    r
}

/// Groups the non-blank lines of `v` (see `group_scan`).
fn group_lines(v: &Vec<char>) -> (r: Vec<String>)
    ensures
        strings_view(r@) == group_scan(v@, 0, 0, Seq::empty(), Seq::empty()),
{
    let ghost s = v@;
    let mut groups: Vec<String> = Vec::new();
    let mut cur: Vec<char> = Vec::new();
    let mut line_start: usize = 0;
    let mut i: usize = 0;
    proof {
        assert(strings_view(groups@) =~= Seq::<Seq<char>>::empty());
    }
    loop
        invariant
            s == v@,
            0 <= line_start <= i <= v.len(),
            group_scan(s, i as int, line_start as int, cur@, strings_view(groups@)) == group_scan(s, 0, 0, Seq::empty(), Seq::empty()),
        decreases v.len() - i,
    {
        if i == v.len() || v[i] == '\n' {
            let (a, b) = trim_range(v, line_start, i);
            let ghost old_cur = cur@;
            let ghost old_groups = strings_view(groups@);
            if b > a {
                join_line(&mut cur, v, a, b);
                if cur.len() >= MIN_GROUP_CHARS {
                    let g = vec_to_string(&cur);
                    proof {
                        assert(strings_view(groups@.push(g)) =~= strings_view(groups@).push(g@));
                    }
                    groups.push(g);
                    cur = Vec::new();
                }
            }
            proof {
                let line = v@.subrange(a as int, b as int);
                assert((cur@, strings_view(groups@)) == add_line(old_cur, old_groups, line));
            }
            if i == v.len() {
                let ghost gv = strings_view(groups@);
                if cur.len() > 0 {
                    if cur.len() < MIN_GROUP_CHARS && groups.len() > 0 {
                        let last: usize = groups.len() - 1;
                        let mut tail: Vec<char> = chars_of(groups[last].as_str());
                        proof {
                            assert(tail@ == gv.last());
                        }
                        tail.push('\n');
                        append_range(&mut tail, &cur, 0, cur.len());
                        proof {
                            assert(cur@.subrange(0, cur@.len() as int) =~= cur@);
                        }
                        let t = vec_to_string(&tail);
                        groups.set(last, t);
                        proof {
                            assert(strings_view(groups@) =~= gv.update(last as int, gv.last().push('\n') + cur@));
                        }
                    } else {
                        let g = vec_to_string(&cur);
                        proof {
                            assert(strings_view(groups@.push(g)) =~= strings_view(groups@).push(g@));
                        }
                        groups.push(g);
                    }
                }
                return groups;
            }
            line_start = i + 1;
        }
        i = i + 1;
    }
}

} // verus!

verus! {

pub open spec fn is_blank_char(c: char) -> bool {
    c == ' ' || c == '\t'
}

/// `s` with every run of spaces and tabs replaced by one space.
pub open spec fn collapse(s: Seq<char>) -> Seq<char>
    decreases s.len(),
{
    if s.len() == 0 {
        s
    } else {
        let head = collapse(s.drop_last());
        let c = s.last();
        if is_blank_char(c) && s.len() > 1 && is_blank_char(s[s.len() - 2]) {
            head
        } else if is_blank_char(c) {
            head.push(' ')
        } else {
            head.push(c)
        }
    }
}

/// Adds a cleaned line to the output, dropping empty lines and separating lines by `\n`.
pub open spec fn add_clean_line(out: Seq<char>, p: Seq<char>) -> Seq<char> {
    if p.len() == 0 {
        out
    } else if out.len() == 0 {
        p
    } else {
        out.push('\n') + p
    }
}

pub open spec fn clean_scan(s: Seq<char>, i: int, line_start: int, out: Seq<char>) -> Seq<char>
    decreases s.len() - i,
{
    if i < 0 || i > s.len() {
        out
    } else if i == s.len() {
        add_clean_line(out, collapse(trim(s.subrange(line_start, i))))
    } else if s[i] == '\n' {
        clean_scan(s, i + 1, i + 1, add_clean_line(out, collapse(trim(s.subrange(line_start, i)))))
    } else {
        clean_scan(s, i + 1, line_start, out)
    }
}

/// Cleaned text: each line trimmed with its runs of spaces and tabs collapsed, empty lines
/// dropped, the rest joined by single newlines.
pub open spec fn cleaned(s: Seq<char>) -> Seq<char> {
    clean_scan(s, 0, 0, Seq::empty())
}

proof fn lemma_collapse_len(s: Seq<char>)
    ensures
        (collapse(s).len() == 0) == (s.len() == 0),
    decreases s.len(),
{
    if s.len() > 0 {
        lemma_collapse_len(s.drop_last());
        if s.len() > 1 {
            assert(s.drop_last().len() > 0);
        }
    }
}

proof fn lemma_collapse_shorter(s: Seq<char>)
    ensures
        collapse(s).len() <= s.len(),
    decreases s.len(),
{
    if s.len() > 0 {
        lemma_collapse_shorter(s.drop_last());
    }
}

proof fn lemma_lead_bound(s: Seq<char>)
    ensures
        crate::text::lead_ws(s) <= s.len(),
    decreases s.len(),
{
    if s.len() > 0 && is_ws(s[0]) {
        lemma_lead_bound(s.drop_first());
    }
}

proof fn lemma_trail_bound(s: Seq<char>)
    ensures
        crate::text::trail_ws(s) <= s.len(),
    decreases s.len(),
{
    if s.len() > 0 && is_ws(s.last()) {
        lemma_trail_bound(s.drop_last());
    }
}

proof fn lemma_trim_shorter(s: Seq<char>)
    ensures
        trim(s).len() <= s.len(),
{
    lemma_lead_bound(s);
    let t = s.subrange(crate::text::lead_ws(s) as int, s.len() as int);
    lemma_trail_bound(t);
}

proof fn lemma_clean_scan_len(s: Seq<char>, i: int, ls: int, out: Seq<char>)
    requires
        0 <= ls <= i <= s.len(),
        out.len() == 0 || out.len() < ls,
    ensures
        clean_scan(s, i, ls, out).len() <= s.len(),
    decreases s.len() - i,
{
    if i == s.len() || s[i] == '\n' {
        let p = collapse(trim(s.subrange(ls, i)));
        lemma_trim_shorter(s.subrange(ls, i));
        lemma_collapse_shorter(trim(s.subrange(ls, i)));
        let o2 = add_clean_line(out, p);
        assert(o2.len() == 0 || o2.len() <= i);
        if i < s.len() {
            lemma_clean_scan_len(s, i + 1, i + 1, o2);
        }
    } else {
        lemma_clean_scan_len(s, i + 1, ls, out);
    }
}

/// Cleaning never lengthens a text.
pub proof fn lemma_cleaned_shorter(s: Seq<char>)
    ensures
        cleaned(s).len() <= s.len(),
{
    lemma_clean_scan_len(s, 0, 0, Seq::empty());
}

/// Appends the collapsed form of `v[a..b]` to `out`.
fn collapse_into(out: &mut Vec<char>, v: &Vec<char>, a: usize, b: usize)
    requires
        a <= b <= v.len(),
    ensures
        final(out)@ == old(out)@ + collapse(v@.subrange(a as int, b as int)),
{
    let ghost base = out@;
    let mut k: usize = a;
    proof {
        assert(collapse(v@.subrange(a as int, a as int)) =~= Seq::<char>::empty());
        assert(out@ =~= base + collapse(v@.subrange(a as int, k as int)));
    }
    while k < b
        invariant
            a <= k <= b <= v.len(),
            out@ == base + collapse(v@.subrange(a as int, k as int)),
        decreases b - k,
    {
        let c = v[k];
        let ghost s = v@.subrange(a as int, k + 1);
        proof {
            assert(s.drop_last() =~= v@.subrange(a as int, k as int));
            assert(s.last() == c);
            if s.len() > 1 {
                assert(s[s.len() - 2] == v@[k - 1]);
            }
        }
        let blank = c == ' ' || c == '\t';
        if blank && k > a && (v[k - 1] == ' ' || v[k - 1] == '\t') {
        } else if blank {
            out.push(' ');
        } else {
            out.push(c);
        }
        k = k + 1;
        proof {
            assert(out@ =~= base + collapse(v@.subrange(a as int, k as int)));
        }
    }
}

/// Cleans extracted text (see `cleaned`).
pub fn clean_text(text: &str) -> (r: String)
    ensures
        r@ == cleaned(text@),
{
    let v = chars_of(text);
    let ghost s = v@;
    let mut out: Vec<char> = Vec::new();
    let mut line_start: usize = 0;
    let mut i: usize = 0;
    loop
        invariant
            s == v@,
            s == text@,
            0 <= line_start <= i <= v.len(),
            clean_scan(s, i as int, line_start as int, out@) == cleaned(s),
        decreases v.len() - i,
    {
        if i == v.len() || v[i] == '\n' {
            let (a, b) = trim_range(&v, line_start, i);
            let ghost before = out@;
            proof {
                lemma_collapse_len(v@.subrange(a as int, b as int));
            }
            if b > a {
                if out.len() > 0 {
                    out.push('\n');
                }
                collapse_into(&mut out, &v, a, b);
                proof {
                    if before.len() == 0 {
                        assert(out@ =~= collapse(v@.subrange(a as int, b as int)));
                    }
                }
            }
            proof {
                assert(out@ == add_clean_line(before, collapse(trim(s.subrange(line_start as int, i as int)))));
            }
            if i == v.len() {
                proof {
                    assert(clean_scan(s, i as int, line_start as int, before) == out@);
                }
                return vec_to_string(&out);
            }
            line_start = i + 1;
        }
        i = i + 1;
    }
}

} // verus!

verus! {

/// The whitespace-separated words of `s` from position `i`; `start` is where the current word
/// began, or -1 between words.
pub open spec fn words_scan(s: Seq<char>, i: int, start: int, acc: Seq<Seq<char>>) -> Seq<Seq<char>>
    decreases s.len() - i,
{
    if i < 0 || i >= s.len() {
        if 0 <= start <= s.len() { acc.push(s.subrange(start, s.len() as int)) } else { acc }
    } else if is_ws(s[i]) {
        if 0 <= start <= i {
            words_scan(s, i + 1, -1, acc.push(s.subrange(start, i)))
        } else {
            words_scan(s, i + 1, -1, acc)
        }
    } else {
        words_scan(s, i + 1, if start >= 0 { start } else { i }, acc)
    }
}

/// The words of `s`, as `str::split_whitespace` gives them.
pub open spec fn words_of(s: Seq<char>) -> Seq<Seq<char>> {
    words_scan(s, 0, -1, Seq::empty())
}

/// Words joined by single spaces.
pub open spec fn join_words(w: Seq<Seq<char>>) -> Seq<char>
    decreases w.len(),
{
    if w.len() == 0 {
        Seq::empty()
    } else if w.len() == 1 {
        w[0]
    } else {
        join_words(w.drop_last()).push(' ') + w.last()
    }
}

/// The start of a new chunk: the last `n` words of the previous chunk, then the new sentence.
pub open spec fn overlap_of(prev: Seq<char>, sentence: Seq<char>, n: nat) -> Seq<char> {
    let w = words_of(prev);
    if w.len() > n {
        join_words(w.subrange(w.len() - n, w.len() as int)).push(' ') + sentence
    } else {
        sentence
    }
}

pub open spec fn ranges_view(v: Seq<char>, r: Seq<(usize, usize)>) -> Seq<Seq<char>> {
    r.map_values(|p: (usize, usize)| v.subrange(p.0 as int, p.1 as int))
}

/// Bounds of the words of `v`.
fn word_bounds(v: &Vec<char>) -> (r: Vec<(usize, usize)>)
    ensures
        ranges_view(v@, r@) == words_of(v@),
        forall|k: int| 0 <= k < r.len() ==> (#[trigger] r@[k]).0 <= r@[k].1 <= v.len(),
{
    let mut r: Vec<(usize, usize)> = Vec::new();
    let mut start: usize = 0;
    let mut in_word = false;
    let mut i: usize = 0;
    proof {
        assert(ranges_view(v@, r@) =~= Seq::<Seq<char>>::empty());
    }
    while i < v.len()
        invariant
            i <= v.len(),
            in_word ==> start <= i,
            forall|k: int| 0 <= k < r.len() ==> (#[trigger] r@[k]).0 <= r@[k].1 <= v.len(),
            words_scan(v@, i as int, if in_word { start as int } else { -1 }, ranges_view(v@, r@)) == words_of(v@),
        decreases v.len() - i,
    {
        if is_white(v[i]) {
            if in_word {
                proof {
                    assert(ranges_view(v@, r@.push((start, i))) =~= ranges_view(v@, r@).push(v@.subrange(start as int, i as int)));
                }
                r.push((start, i));
                in_word = false;
            }
        } else if !in_word {
            start = i;
            in_word = true;
        }
        i = i + 1;
    }
    if in_word {
        proof {
            assert(ranges_view(v@, r@.push((start, v.len()))) =~= ranges_view(v@, r@).push(v@.subrange(start as int, v.len() as int)));
        }
        r.push((start, v.len()));
    }
    r
}

impl DocumentProcessor {
    /// The seed of the chunk that follows `previous`: its last `chunk_overlap` words, then
    /// `sentence` (see `overlap_of`).
    pub fn create_overlap_content(&self, previous: &Vec<char>, sentence: &Vec<char>) -> (r: Vec<char>)
        ensures
            r@ == overlap_of(previous@, sentence@, self.chunk_overlap as nat),
    {
        let w = word_bounds(previous);
        let n = self.chunk_overlap;
        let ghost ws = words_of(previous@);
        if w.len() > n {
            let first: usize = w.len() - n;
            let mut out: Vec<char> = Vec::new();
            let mut k: usize = first;
            let ghost sub = ws.subrange(first as int, ws.len() as int);
            proof {
                assert(sub.subrange(0, 0) =~= Seq::<Seq<char>>::empty());
            }
            while k < w.len()
                invariant
                    first <= k <= w.len(),
                    ws == ranges_view(previous@, w@),
                    ws.len() == w.len(),
                    sub == ws.subrange(first as int, ws.len() as int),
                    forall|j: int| 0 <= j < w.len() ==> (#[trigger] w@[j]).0 <= w@[j].1 <= previous.len(),
                    out@ == join_words(sub.subrange(0, k - first)),
                decreases w.len() - k,
            {
                let (a, b) = w[k];
                proof {
                    let t = sub.subrange(0, k + 1 - first);
                    assert(t.drop_last() =~= sub.subrange(0, k - first));
                    assert(t.last() == previous@.subrange(a as int, b as int));
                }
                if k > first {
                    out.push(' ');
                }
                append_range(&mut out, previous, a, b);
                k = k + 1;
                proof {
                    assert(sub.subrange(0, k - first) == sub.subrange(0, k - first));
                }
            }
            proof {
                assert(sub.subrange(0, w.len() - first) =~= sub);
            }
            out.push(' ');
            append_range(&mut out, sentence, 0, sentence.len());
            proof {
                assert(sentence@.subrange(0, sentence@.len() as int) =~= sentence@);
            }
            out
        } else {
            sentence.clone()
        }
    }
}

} // verus!

verus! {

/// A chunk's text and character span, as the planner produces it.
pub type Piece = (Seq<char>, int, int);

/// Keeps a planned chunk only when it would make a valid `DocumentChunk`.
pub open spec fn add_piece(pieces: Seq<Piece>, c: Seq<char>, start: int, end: int) -> Seq<Piece> {
    if 0 <= start && start <= u64::MAX && 0 <= end && end <= u64::MAX
        && chunk_error(c, start as u64, end as u64) is None {
        pieces.push((c, start, end))
    } else {
        pieces
    }
}

pub open spec fn min_int(a: int, b: int) -> int {
    if a <= b { a } else { b }
}

/// Where the seed of a new chunk starts: `offset` moved back by the seed's length, at least 0.
pub open spec fn overlap_start(offset: int, seed_len: int) -> int {
    if offset >= seed_len { offset - seed_len } else { 0 }
}

/// The greedy chunk planner over `sents` from sentence `k`. `cur` is the chunk being built,
/// starting at `cur_start`; `offset` is the position reached in a text of `len` characters.
pub open spec fn plan_scan(
    sents: Seq<Seq<char>>,
    k: int,
    max: nat,
    ov: nat,
    len: int,
    pieces: Seq<Piece>,
    cur: Seq<char>,
    cur_start: int,
    offset: int,
) -> Seq<Piece>
    decreases sents.len() - k,
{
    if k < 0 || k >= sents.len() {
        if !is_blank(cur) { add_piece(pieces, trim(cur), cur_start, offset) } else { pieces }
    } else {
        let s = sents[k];
        let next = min_int(offset + s.len() + 1, len);
        if tokens_for(cur.len()) + tokens_for(s.len()) > max && cur.len() > 0 {
            let seed = overlap_of(cur, s, ov);
            plan_scan(sents, k + 1, max, ov, len, add_piece(pieces, trim(cur), cur_start, offset),
                seed.push(' '), overlap_start(offset, seed.len() as int), next)
        } else {
            plan_scan(sents, k + 1, max, ov, len, pieces, cur + s.push(' '),
                if cur.len() == 0 { offset } else { cur_start }, next)
        }
    }
}

/// The chunks planned for a text: its sentences packed greedily under the token budget.
pub open spec fn planned_chunks(text: Seq<char>, max: nat, ov: nat) -> Seq<Piece> {
    plan_scan(sentences_of(text), 0, max, ov, text.len() as int, Seq::empty(), Seq::empty(), 0, 0)
}

pub open spec fn chunk_piece(c: DocumentChunk) -> Piece {
    (c.content@, c.start_offset as int, c.end_offset as int)
}

/// A planned chunk lies inside the text and makes a valid chunk.
pub open spec fn piece_ok(p: Piece, len: int) -> bool {
    &&& 0 <= p.1 < p.2 <= len
    &&& p.2 <= u64::MAX
    &&& chunk_error(p.0, p.1 as u64, p.2 as u64) is None
}

proof fn lemma_plan_bounds(
    sents: Seq<Seq<char>>, k: int, max: nat, ov: nat, len: int,
    pieces: Seq<Piece>, cur: Seq<char>, cur_start: int, offset: int,
)
    requires
        0 <= k <= sents.len(),
        0 <= offset <= len,
        0 <= cur_start,
        forall|j: int| 0 <= j < pieces.len() ==> piece_ok(#[trigger] pieces[j], len),
    ensures
        forall|j: int| 0 <= j < plan_scan(sents, k, max, ov, len, pieces, cur, cur_start, offset).len()
            ==> piece_ok(#[trigger] plan_scan(sents, k, max, ov, len, pieces, cur, cur_start, offset)[j], len),
    decreases sents.len() - k,
{
    if k < sents.len() {
        let s = sents[k];
        let next = min_int(offset + s.len() + 1, len);
        if tokens_for(cur.len()) + tokens_for(s.len()) > max && cur.len() > 0 {
            let seed = overlap_of(cur, s, ov);
            let p2 = add_piece(pieces, trim(cur), cur_start, offset);
            assert forall|j: int| 0 <= j < p2.len() implies piece_ok(#[trigger] p2[j], len) by {
                if j < pieces.len() {
                    assert(p2[j] == pieces[j]);
                }
            }
            lemma_plan_bounds(sents, k + 1, max, ov, len, p2,
                seed.push(' '), overlap_start(offset, seed.len() as int), next);
            assert(plan_scan(sents, k, max, ov, len, pieces, cur, cur_start, offset)
                == plan_scan(sents, k + 1, max, ov, len, p2, seed.push(' '), overlap_start(offset, seed.len() as int), next));
        } else {
            lemma_plan_bounds(sents, k + 1, max, ov, len, pieces, cur + s.push(' '),
                if cur.len() == 0 { offset } else { cur_start }, next);
            assert(plan_scan(sents, k, max, ov, len, pieces, cur, cur_start, offset)
                == plan_scan(sents, k + 1, max, ov, len, pieces, cur + s.push(' '),
                if cur.len() == 0 { offset } else { cur_start }, next));
        }
    } else {
        let r = plan_scan(sents, k, max, ov, len, pieces, cur, cur_start, offset);
        if !is_blank(cur) {
            assert(r == add_piece(pieces, trim(cur), cur_start, offset));
        } else {
            assert(r == pieces);
        }
        assert forall|j: int| 0 <= j < r.len() implies piece_ok(#[trigger] r[j], len) by {
            if j < pieces.len() {
                assert(r[j] == pieces[j]);
            }
        }
    }
}

#[derive(Debug, Clone, PartialEq, Eq)]
pub enum ProcessingError {
    FileNotFound,
    NotAFile,
    FileTooLarge(u64),
    EmptyFile,
    UnsupportedFileType(String),
    NoValidChunks,
}

impl DocumentProcessor {
    /// Emits `cur`, trimmed, as chunk number `chunks.len()` when it makes a valid chunk.
    fn emit(document_id: &String, chunks: &mut Vec<DocumentChunk>, cur: &Vec<char>, start: usize, end: usize)
        requires
            old(chunks).len() < u32::MAX,
        ensures
            final(chunks)@.map_values(|c: DocumentChunk| chunk_piece(c))
                == add_piece(old(chunks)@.map_values(|c: DocumentChunk| chunk_piece(c)), trim(cur@), start as int, end as int),
            forall|j: int| 0 <= j < old(chunks).len() ==> final(chunks)@[j] == old(chunks)@[j],
            final(chunks).len() == old(chunks).len() || final(chunks).len() == old(chunks).len() + 1,
            final(chunks).len() == old(chunks).len() + 1 ==> {
                let c = final(chunks)@.last();
                c.chunk_index == old(chunks).len() && c.document_id@ == document_id@
                    && c.token_count == tokens_for(c.content@.len())
            },
    {
        let (a, b) = trim_range(cur, 0, cur.len());
        let piece = string_of(cur, a, b);
        proof {
            assert(cur@.subrange(0, cur@.len() as int) =~= cur@);
        }
        let idx = chunks.len() as u32;
        match DocumentChunk::new(document_id.clone(), idx, piece, start as u64, end as u64) {
            Ok(c) => {
                proof {
                    assert(chunks@.push(c).map_values(|c: DocumentChunk| chunk_piece(c))
                        =~= chunks@.map_values(|c: DocumentChunk| chunk_piece(c)).push(chunk_piece(c)));
                }
                chunks.push(c);
            },
            Err(_) => {},
        }
    }
}

} // verus!

verus! {

proof fn lemma_scan_count(s: Seq<char>, i: int, start: int, acc: Seq<Seq<char>>)
    requires
        0 <= i <= s.len(),
    ensures
        sentence_scan(s, i, start, acc).0.len() <= acc.len() + (s.len() - i),
    decreases s.len() - i,
{
    if i < s.len() {
        if is_end_mark(s[i]) && trim(s.subrange(start, i + 1)).len() > 3 {
            lemma_scan_count(s, i + 1, i + 1, acc.push(trim(s.subrange(start, i + 1))));
        } else {
            lemma_scan_count(s, i + 1, start, acc);
        }
    }
}

proof fn lemma_group_count(s: Seq<char>, i: int, line_start: int, cur: Seq<char>, groups: Seq<Seq<char>>)
    requires
        0 <= i <= s.len(),
    ensures
        group_scan(s, i, line_start, cur, groups).len() <= groups.len() + (s.len() - i) + 2,
    decreases s.len() - i,
{
    if i < s.len() {
        if s[i] == '\n' {
            let (c, g) = add_line(cur, groups, trim(s.subrange(line_start, i)));
            lemma_group_count(s, i + 1, i + 1, c, g);
        } else {
            lemma_group_count(s, i + 1, line_start, cur, groups);
        }
    }
}

proof fn lemma_sentence_count(s: Seq<char>)
    ensures
        sentences_of(s).len() <= s.len() + 2,
{
    lemma_scan_count(s, 0, 0, Seq::empty());
    lemma_group_count(s, 0, 0, Seq::empty(), Seq::empty());
}

impl DocumentProcessor {
    /// Cuts cleaned text into chunks (see `planned_chunks`), numbered from 0 and tagged with
    /// `document_id`; fails when no valid chunk comes out.
    pub fn create_chunks(&self, document_id: &String, content: &str) -> (r: Result<Vec<DocumentChunk>, ProcessingError>)
        requires
            content@.len() <= crate::models::document::MAX_FILE_SIZE,
        ensures
            planned_chunks(content@, self.max_chunk_size as nat, self.chunk_overlap as nat).len() == 0
                ==> r == Err::<Vec<DocumentChunk>, _>(ProcessingError::NoValidChunks),
            planned_chunks(content@, self.max_chunk_size as nat, self.chunk_overlap as nat).len() > 0
                ==> (r matches Ok(chunks) && chunks@.map_values(|c: DocumentChunk| chunk_piece(c))
                    == planned_chunks(content@, self.max_chunk_size as nat, self.chunk_overlap as nat)),
            r matches Ok(chunks) ==> chunks.len() <= content@.len() + 3,
            r matches Ok(chunks) ==> chunks.len() > 0 && forall|j: int| 0 <= j < chunks.len() ==> {
                let c = #[trigger] chunks@[j];
                &&& c.chunk_index == j
                &&& c.document_id@ == document_id@
                &&& c.start_offset < c.end_offset <= content@.len()
                &&& chunk_error(c.content@, c.start_offset, c.end_offset) is None
                &&& c.token_count == tokens_for(c.content@.len())
            },
    {
        let sentences = split_sentences(content);
        let total: usize = chars_of(content).len();
        let ghost sents = sentences_of(content@);
        let ghost max = self.max_chunk_size as nat;
        let ghost ov = self.chunk_overlap as nat;
        proof {
            lemma_sentence_count(content@);
        }
        let mut chunks: Vec<DocumentChunk> = Vec::new();
        let mut cur: Vec<char> = Vec::new();
        let mut cur_start: usize = 0;
        let mut offset: usize = 0;
        let mut k: usize = 0;
        proof {
            assert(chunks@.map_values(|c: DocumentChunk| chunk_piece(c)) =~= Seq::<Piece>::empty());
        }
        while k < sentences.len()
            invariant
                strings_view(sentences@) == sents,
                sents == sentences_of(content@),
                sents.len() <= content@.len() + 2,
                content@.len() <= crate::models::document::MAX_FILE_SIZE,
                total == content@.len(),
                max == self.max_chunk_size,
                ov == self.chunk_overlap,
                k <= sentences.len(),
                offset <= total,
                chunks.len() <= k,
                forall|j: int| 0 <= j < chunks.len() ==> {
                    let c = #[trigger] chunks@[j];
                    &&& c.chunk_index == j
                    &&& c.document_id@ == document_id@
                    &&& c.token_count == tokens_for(c.content@.len())
                },
                plan_scan(sents, k as int, max, ov, total as int, chunks@.map_values(|c: DocumentChunk| chunk_piece(c)),
                    cur@, cur_start as int, offset as int) == planned_chunks(content@, max, ov),
            decreases sentences.len() - k,
        {
            let s = chars_of(sentences[k].as_str());
            proof {
                assert(s@ == sents[k as int]);
            }
            let step: usize = if s.len() < total { s.len() + 1 } else { total };
            let next: usize = if offset + step < total { offset + step } else { total };
            proof {
                assert(next == min_int(offset + s@.len() + 1, total as int));
            }
            let cur_tokens = DocumentChunk::estimate_token_count_of(cur.len());
            let sent_tokens = DocumentChunk::estimate_token_count_of(s.len());
            if cur_tokens + sent_tokens > self.max_chunk_size && cur.len() > 0 {
                Self::emit(document_id, &mut chunks, &cur, cur_start, offset);
                let seed = self.create_overlap_content(&cur, &s);
                let seed_len = seed.len();
                cur = seed;
                cur.push(' ');
                cur_start = if offset >= seed_len { offset - seed_len } else { 0 };
            } else {
                if cur.len() == 0 {
                    cur_start = offset;
                }
                let ghost old_cur = cur@;
                append_range(&mut cur, &s, 0, s.len());
                cur.push(' ');
                proof {
                    assert(s@.subrange(0, s@.len() as int) =~= s@);
                    assert(cur@ =~= old_cur + s@.push(' '));
                }
            }
            offset = next;
            k = k + 1;
        }
        if !crate::text::all_white(&cur, 0, cur.len()) {
            proof {
                assert(cur@.subrange(0, cur@.len() as int) =~= cur@);
            }
            Self::emit(document_id, &mut chunks, &cur, cur_start, offset);
        } else {
            proof {
                assert(cur@.subrange(0, cur@.len() as int) =~= cur@);
            }
        }
        let ghost pieces = chunks@.map_values(|c: DocumentChunk| chunk_piece(c));
        proof {
            assert(pieces == planned_chunks(content@, max, ov));
            lemma_plan_bounds(sents, 0, max, ov, total as int, Seq::empty(), Seq::empty(), 0, 0);
            assert forall|j: int| 0 <= j < chunks.len() implies {
                let c = #[trigger] chunks@[j];
                &&& c.start_offset < c.end_offset <= content@.len()
                &&& chunk_error(c.content@, c.start_offset, c.end_offset) is None
            } by {
                assert(pieces[j] == chunk_piece(chunks@[j]));
                assert(piece_ok(pieces[j], total as int));
            }
        }
        if chunks.len() == 0 {
            return Err(ProcessingError::NoValidChunks);
        }
        Ok(chunks)
    }
}

} // verus!

verus! {

/// What processing a document yields: its chunks and their summed token estimate.
#[derive(Debug, Clone)]
pub struct ProcessingResult {
    pub chunks: Vec<DocumentChunk>,
    pub total_tokens: u64,
}

pub open spec fn sum_tokens(c: Seq<DocumentChunk>) -> nat
    decreases c.len(),
{
    if c.len() == 0 {
        0
    } else {
        sum_tokens(c.drop_last()) + c.last().token_count as nat
    }
}

/// Whether a path names a file of a supported kind, going by its extension in lower case.
pub open spec fn supported_path(p: Seq<char>) -> bool {
    match extension_of(p) {
        Some(e) => mime_for_extension(lower_of(e)) is Some,
        None => false,
    }
}

impl DocumentProcessor {
    /// A processor with chunks of at most 1000 tokens and an overlap of 100 words.
    pub fn new() -> (r: Self)
        ensures
            r.max_chunk_size == 1000,
            r.chunk_overlap == 100,
    {
        DocumentProcessor { max_chunk_size: 1000, chunk_overlap: 100 }
    }

    pub fn with_chunk_settings(max_chunk_size: usize, chunk_overlap: usize) -> (r: Self)
        ensures
            r.max_chunk_size == max_chunk_size,
            r.chunk_overlap == chunk_overlap,
    {
        DocumentProcessor { max_chunk_size, chunk_overlap }
    }

    /// Sentences of `text` (see `sentences_of`).
    pub fn split_into_sentences(&self, text: &str) -> (r: Vec<String>)
        ensures
            strings_view(r@) == sentences_of(text@),
    {
        split_sentences(text)
    }

    /// Estimated tokens of `text`: its characters divided by four, rounded up.
    pub fn estimate_token_count(&self, text: &str) -> (r: usize)
        ensures
            r == tokens_for(text@.len()),
    {
        DocumentChunk::estimate_token_count(text)
    }

    /// Where the seed of a new chunk starts, `seed_len` characters before `current_offset`.
    pub fn calculate_overlap_start(&self, current_offset: usize, seed_len: usize) -> (r: usize)
        ensures
            r == overlap_start(current_offset as int, seed_len as int),
    {
        if current_offset >= seed_len { current_offset - seed_len } else { 0 }
    }

    /// The extensions of supported files.
    pub fn get_supported_extensions() -> (r: Vec<&'static str>)
        ensures
            r@.len() == 7,
            r@[0]@ == "txt"@,
            r@[1]@ == "md"@,
            r@[2]@ == "markdown"@,
            r@[3]@ == "pdf"@,
            r@[4]@ == "doc"@,
            r@[5]@ == "docx"@,
            r@[6]@ == "rtf"@,
    {
        vec!["txt", "md", "markdown", "pdf", "doc", "docx", "rtf"]
    }

    /// Whether the path's extension, in lower case, is a supported one.
    pub fn is_supported_file(&self, file_path: &str) -> (r: bool)
        ensures
            r == supported_path(file_path@),
    {
        match path_extension(file_path) {
            Some(e) => {
                let lower = lowercase(e.as_str());
                mime_type_for_extension(lower.as_str()).is_some()
            },
            None => false,
        }
    }

    /// Checks what is known of a file on disk: it exists, is a regular file, and its size lies
    /// in (0, 50 MiB].
    pub fn validate_file(&self, found: bool, is_file: bool, size: u64) -> (r: Result<(), ProcessingError>)
        ensures
            !found ==> r == Err::<(), _>(ProcessingError::FileNotFound),
            found && !is_file ==> r == Err::<(), _>(ProcessingError::NotAFile),
            found && is_file && size > MAX_FILE_SIZE ==> r == Err::<(), _>(ProcessingError::FileTooLarge(size)),
            found && is_file && size == 0 ==> r == Err::<(), _>(ProcessingError::EmptyFile),
            found && is_file && 0 < size <= MAX_FILE_SIZE ==> r is Ok,
    {
        if !found {
            return Err(ProcessingError::FileNotFound);
        }
        if !is_file {
            return Err(ProcessingError::NotAFile);
        }
        if size > MAX_FILE_SIZE {
            return Err(ProcessingError::FileTooLarge(size));
        }
        if size == 0 {
            return Err(ProcessingError::EmptyFile);
        }
        Ok(())
    }

    /// Cleans text extracted from a document and cuts it into chunks. Text longer than the
    /// largest accepted file is refused.
    pub fn process_text(&self, document_id: &String, extracted: &str) -> (r: Result<ProcessingResult, ProcessingError>)
        ensures
            cleaned(extracted@).len() > MAX_FILE_SIZE
                ==> r == Err::<ProcessingResult, _>(ProcessingError::FileTooLarge(cleaned(extracted@).len() as u64)),
            cleaned(extracted@).len() <= MAX_FILE_SIZE
                && planned_chunks(cleaned(extracted@), self.max_chunk_size as nat, self.chunk_overlap as nat).len() == 0
                ==> r == Err::<ProcessingResult, _>(ProcessingError::NoValidChunks),
            cleaned(extracted@).len() <= MAX_FILE_SIZE
                && planned_chunks(cleaned(extracted@), self.max_chunk_size as nat, self.chunk_overlap as nat).len() > 0
                ==> (r matches Ok(res) && res.chunks@.map_values(|c: DocumentChunk| chunk_piece(c))
                    == planned_chunks(cleaned(extracted@), self.max_chunk_size as nat, self.chunk_overlap as nat)
                    && res.total_tokens == sum_tokens(res.chunks@)),
            r matches Ok(res) ==> forall|j: int| 0 <= j < res.chunks.len() ==> {
                let c = #[trigger] res.chunks@[j];
                &&& c.chunk_index == j
                &&& c.document_id@ == document_id@
                &&& c.start_offset < c.end_offset <= cleaned(extracted@).len()
                &&& c.end_offset <= extracted@.len()
                &&& chunk_error(c.content@, c.start_offset, c.end_offset) is None
            },
    {
        proof {
            lemma_cleaned_shorter(extracted@);
        }
        let text = clean_text(extracted);
        let n = chars_of(text.as_str()).len();
        if n > MAX_FILE_SIZE as usize {
            return Err(ProcessingError::FileTooLarge(n as u64));
        }
        let chunks = self.create_chunks(document_id, text.as_str())?;
        let mut total: u64 = 0;
        let mut i: usize = 0;
        while i < chunks.len()
            invariant
                i <= chunks.len(),
                chunks.len() <= MAX_FILE_SIZE + 3,
                forall|j: int| 0 <= j < chunks.len() ==> (#[trigger] chunks@[j]).token_count <= MAX_CHUNK_TOKENS,
                total == sum_tokens(chunks@.subrange(0, i as int)),
                total <= i * MAX_CHUNK_TOKENS,
            decreases chunks.len() - i,
        {
            proof {
                assert(chunks@.subrange(0, i + 1).drop_last() =~= chunks@.subrange(0, i as int));
            }
            total = total + chunks[i].token_count as u64;
            i = i + 1;
        }
        proof {
            assert(chunks@.subrange(0, chunks@.len() as int) =~= chunks@);
        }
        Ok(ProcessingResult { chunks, total_tokens: total })
    }
}

} // verus!

verus! {

/// Where the RTF scanner is: in text, or inside a control word's letters, digits or the
/// spaces after it.
#[derive(Debug, Clone, Copy, PartialEq, Eq, Structural)]
pub enum RtfMode {
    Text,
    Word,
    Digits,
    Spaces,
}

pub open spec fn is_letter(c: char) -> bool {
    ('a' <= c && c <= 'z') || ('A' <= c && c <= 'Z')
}

pub open spec fn is_digit(c: char) -> bool {
    '0' <= c && c <= '9'
}

/// The text of `s` from position `i` with RTF control words (`\`, letters, digits, then
/// whitespace) and braces removed.
pub open spec fn rtf_scan(s: Seq<char>, i: int, mode: RtfMode) -> Seq<char>
    decreases s.len() - i,
{
    if i < 0 || i >= s.len() {
        Seq::empty()
    } else if mode == RtfMode::Word && is_letter(s[i]) {
        rtf_scan(s, i + 1, RtfMode::Word)
    } else if (mode == RtfMode::Word || mode == RtfMode::Digits) && is_digit(s[i]) {
        rtf_scan(s, i + 1, RtfMode::Digits)
    } else if mode != RtfMode::Text && is_ws(s[i]) {
        rtf_scan(s, i + 1, RtfMode::Spaces)
    } else if s[i] == '\\' && i + 1 < s.len() && is_letter(s[i + 1]) {
        rtf_scan(s, i + 1, RtfMode::Word)
    } else if s[i] == '{' || s[i] == '}' {
        rtf_scan(s, i + 1, RtfMode::Text)
    } else {
        seq![s[i]] + rtf_scan(s, i + 1, RtfMode::Text)
    }
}

/// RTF source without its control words and braces.
pub fn strip_rtf_formatting(rtf: &str) -> (r: String)
    ensures
        r@ == rtf_scan(rtf@, 0, RtfMode::Text),
{
    let v = chars_of(rtf);
    let mut out: Vec<char> = Vec::new();
    let mut mode = RtfMode::Text;
    let mut i: usize = 0;
    while i < v.len()
        invariant
            i <= v.len(),
            v@ == rtf@,
            out@ + rtf_scan(v@, i as int, mode) == rtf_scan(v@, 0, RtfMode::Text),
        decreases v.len() - i,
    {
        let c = v[i];
        let letter = ('a' <= c && c <= 'z') || ('A' <= c && c <= 'Z');
        let digit = '0' <= c && c <= '9';
        let ghost before = out@;
        let ghost m0 = mode;
        if mode == RtfMode::Word && letter {
        } else if (mode == RtfMode::Word || mode == RtfMode::Digits) && digit {
            mode = RtfMode::Digits;
        } else if mode != RtfMode::Text && is_white(c) {
            mode = RtfMode::Spaces;
        } else if c == '\\' && i + 1 < v.len() && (('a' <= v[i + 1] && v[i + 1] <= 'z') || ('A' <= v[i + 1] && v[i + 1] <= 'Z')) {
            mode = RtfMode::Word;
        } else if c == '{' || c == '}' {
            mode = RtfMode::Text;
        } else {
            out.push(c);
            mode = RtfMode::Text;
            proof {
                assert(out@ + rtf_scan(v@, i + 1, mode) =~= before + (seq![c] + rtf_scan(v@, i + 1, mode)));
            }
        }
        proof {
            assert(rtf_scan(v@, i as int, m0) == (out@.subrange(before.len() as int, out@.len() as int) + rtf_scan(v@, i + 1, mode))) by {
                if out@.len() == before.len() {
                    assert(out@.subrange(before.len() as int, out@.len() as int) =~= Seq::<char>::empty());
                } else {
                    assert(out@.subrange(before.len() as int, out@.len() as int) =~= seq![c]);
                }
            }
            assert(out@ + rtf_scan(v@, i + 1, mode) =~= before + rtf_scan(v@, i as int, m0));
        }
        i = i + 1;
    }
    proof {
        assert(out@ + rtf_scan(v@, i as int, mode) =~= out@);
    }
    vec_to_string(&out)
}

/// The text of an RTF document: its control words and braces removed, then cleaned.
pub fn extract_rtf_text(rtf: &str) -> (r: String)
    ensures
        r@ == cleaned(rtf_scan(rtf@, 0, RtfMode::Text)),
{
    let plain = strip_rtf_formatting(rtf);
    clean_text(plain.as_str())
}

} // verus!
