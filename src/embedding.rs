//! The decisions of the embedding client: batching, retries with backoff, and putting the
//! provider's vectors back in the order of the texts.
use vstd::prelude::*;
use crate::text::{chars_of, contains_seq, seq_contains, lower_of, lowercase};

verus! {

/// Length of every embedding vector.
pub const EMBEDDING_DIM: usize = 1536;
/// Most texts the provider takes in one request.
pub const MAX_BATCH: usize = 25;
/// Retries after the first attempt.
pub const MAX_RETRIES: u32 = 3;
pub const INITIAL_DELAY_MS: u64 = 1000;
pub const MAX_DELAY_MS: u64 = 30000;

/// The batches `[k * size, min((k + 1) * size, n))` covering `0..n`.
pub open spec fn batch_bounds(n: nat, size: nat, k: nat) -> (nat, nat) {
    (k * size, if (k + 1) * size <= n { (k + 1) * size } else { n })
}

/// Cuts `0..n` into consecutive ranges of at most `size` items, in order.
pub fn batch_ranges(n: usize, size: usize) -> (r: Vec<(usize, usize)>)
    requires
        size > 0,
    ensures
        n == 0 ==> r.len() == 0,
        n > 0 ==> r.len() > 0,
        forall|k: int| 0 <= k < r.len() ==> (#[trigger] r@[k]).0 < r@[k].1 && r@[k].1 - r@[k].0 <= size,
        forall|k: int| 0 <= k < r.len() ==> r@[k].0 == k * size && r@[k].1 == (if (k + 1) * size <= n { (k + 1) * size } else { n as int }),
        r.len() > 0 ==> r@[0].0 == 0 && r@.last().1 == n,
        forall|k: int| 0 <= k < r.len() - 1 ==> (#[trigger] r@[k]).1 == r@[k + 1].0,
{
    let mut r: Vec<(usize, usize)> = Vec::new();
    let mut start: usize = 0;
    while start < n
        invariant
            size > 0,
            start <= n,
            start == n || start == r.len() * size,
            r.len() == 0 ==> start == 0,
            forall|k: int| 0 <= k < r.len() ==> (#[trigger] r@[k]).0 < r@[k].1 && r@[k].1 - r@[k].0 <= size,
            forall|k: int| 0 <= k < r.len() ==> r@[k].0 == k * size && r@[k].1 == (if (k + 1) * size <= n { (k + 1) * size } else { n as int }),
            r.len() > 0 ==> r@.last().1 == start,
        decreases n - start,
    {
        let end: usize = if n - start > size { start + size } else { n };
        proof {
            assert((r.len() + 1) * size == r.len() * size + size) by (nonlinear_arith);
        }
        r.push((start, end));
        start = end;
    }
    proof {
        if r.len() > 0 {
            assert(r@[0].0 == 0int * size);
        }
        assert forall|k: int| 0 <= k < r.len() - 1 implies (#[trigger] r@[k]).1 == r@[k + 1].0 by {
            assert((k + 1) * size == k * size + size) by (nonlinear_arith);
            assert(r@[k].1 - r@[k].0 <= size);
        }
    }
    r
}

/// Whether an error text (already lower-cased) names a condition worth retrying: a timeout,
/// a connection or network failure, or HTTP status 429, 500, 502, 503 or 504.
pub open spec fn retryable_text(t: Seq<char>) -> bool {
    contains_seq(t, "timeout"@) || contains_seq(t, "connection"@) || contains_seq(t, "network"@)
        || contains_seq(t, "[429]"@) || contains_seq(t, "[500]"@) || contains_seq(t, "[502]"@)
        || contains_seq(t, "[503]"@) || contains_seq(t, "[504]"@)
}

fn has(t: &Vec<char>, needle: &str) -> (r: bool)
    ensures
        r == contains_seq(t@, needle@),
{
    let n = chars_of(needle);
    seq_contains(t, &n)
}

/// Whether a lower-cased error text is retryable (see `retryable_text`).
pub fn is_retryable_message(lowered: &str) -> (r: bool)
    ensures
        r == retryable_text(lowered@),
{
    let t = chars_of(lowered);
    has(&t, "timeout") || has(&t, "connection") || has(&t, "network") || has(&t, "[429]")
        || has(&t, "[500]") || has(&t, "[502]") || has(&t, "[503]") || has(&t, "[504]")
}

/// Whether an error is retryable, judged on its text in lower case.
pub fn is_retryable_error(message: &str) -> (r: bool)
    ensures
        r == retryable_text(lower_of(message@)),
{
    let lowered = lowercase(message);
    is_retryable_message(lowered.as_str())
}

/// The wait before the next attempt: doubled, at most 30 s.
pub open spec fn next_delay(d: u64) -> u64 {
    if d >= MAX_DELAY_MS / 2 { MAX_DELAY_MS } else { (2 * d) as u64 }
}

/// Attempts made so far (after the first) and the wait before the next one.
#[derive(Debug, Clone, Copy, PartialEq, Eq, Structural)]
pub struct RetryState {
    pub retries: u32,
    pub delay_ms: u64,
}

#[derive(Debug, Clone, Copy, PartialEq, Eq, Structural)]
pub enum RetryDecision {
    /// Wait `delay_ms`, then try again from `next`.
    Retry { delay_ms: u64, next: RetryState },
    /// Surface the error.
    GiveUp,
}

impl RetryState {
    pub fn initial() -> (r: RetryState)
        ensures
            r.retries == 0,
            r.delay_ms == INITIAL_DELAY_MS,
    {
        RetryState { retries: 0, delay_ms: INITIAL_DELAY_MS }
    }

    /// What to do after a failed attempt: retry while attempts remain and the error is
    /// retryable, waiting the current delay; then double the delay, up to 30 s.
    pub fn on_failure(&self, retryable: bool, max_retries: u32) -> (r: RetryDecision)
        ensures
            (self.retries < max_retries && retryable) ==> r == (RetryDecision::Retry {
                delay_ms: self.delay_ms,
                next: RetryState { retries: (self.retries + 1) as u32, delay_ms: next_delay(self.delay_ms) },
            }),
            !(self.retries < max_retries && retryable) ==> r == RetryDecision::GiveUp,
    {
        if self.retries < max_retries && retryable {
            let d = if self.delay_ms >= MAX_DELAY_MS / 2 { MAX_DELAY_MS } else { 2 * self.delay_ms };
            RetryDecision::Retry { delay_ms: self.delay_ms, next: RetryState { retries: self.retries + 1, delay_ms: d } }
        } else {
            RetryDecision::GiveUp
        }
    }
}

/// The provider's items `(text_index, vector)` put in text order: defined when the indices
/// are exactly `0..n`, each once.
pub open spec fn is_index_permutation<T>(items: Seq<(usize, T)>) -> bool {
    &&& forall|j: int| 0 <= j < items.len() ==> (#[trigger] items[j]).0 < items.len()
    &&& forall|j: int, k: int| 0 <= j < k < items.len() ==> (#[trigger] items[j]).0 != (#[trigger] items[k]).0
    &&& forall|s: int| 0 <= s < items.len() ==> #[trigger] index_hit(items, s)
}

/// Some item from position `from` on carries text index `s`.
pub open spec fn hit_after<T>(items: Seq<(usize, T)>, from: int, s: int) -> bool {
    exists|b: int| from <= b < items.len() && (#[trigger] items[b]).0 == s
}

/// Some item carries text index `s`.
pub open spec fn index_hit<T>(items: Seq<(usize, T)>, s: int) -> bool {
    hit_after(items, 0, s)
}

#[derive(Debug, Clone, Copy, PartialEq, Eq, Structural)]
pub enum EmbeddingError {
    /// The provider's indices do not match the texts sent.
    BadIndices,
    /// A vector does not have the expected length.
    WrongDimension,
    /// The provider returned another number of vectors than texts sent.
    WrongCount,
}

/// Puts the provider's items in the order of their text indices.
pub fn reorder_by_index<T>(input: Vec<(usize, T)>) -> (r: Result<Vec<T>, EmbeddingError>)
    ensures
        is_index_permutation(input@) ==> (r matches Ok(v) && v.len() == input.len()
            && forall|j: int| 0 <= j < input.len() ==> v@[(#[trigger] input@[j]).0 as int] == input@[j].1),
        !is_index_permutation(input@) ==> r == Err::<Vec<T>, _>(EmbeddingError::BadIndices),
{
    let n = input.len();
    let ghost orig = input@;
    let mut slots: Vec<Option<T>> = Vec::new();
    let mut i: usize = 0;
    while i < n
        invariant
            i <= n,
            slots.len() == i,
            forall|k: int| 0 <= k < i ==> slots@[k] is None,
        decreases n - i,
    {
        slots.push(None);
        i = i + 1;
    }
    let mut items = input;
    let mut j: usize = 0;
    // Items are taken from the back; `j` counts those placed.
    while items.len() > 0
        invariant
            orig == input@,
            n == orig.len(),
            slots.len() == n,
            items@ == orig.subrange(0, n - j),
            j <= n,
            items.len() == n - j,
            forall|a: int| n - j <= a < n ==> (#[trigger] orig[a]).0 < n && slots@[orig[a].0 as int] == Some(orig[a].1),
            forall|a: int, b: int| n - j <= a < b < n ==> (#[trigger] orig[a]).0 != (#[trigger] orig[b]).0,
            forall|s: int| 0 <= s < n ==> (slots@[s] is Some <==> #[trigger] hit_after(orig, n - j, s)),
        decreases items.len(),
    {
        let (idx, t) = items.pop().unwrap();
        let ghost a = n - j - 1;
        proof {
            assert(orig[a] == (idx, t));
        }
        if idx >= n {
            proof {
                assert(!(orig[a].0 < orig.len()));
                assert(!is_index_permutation(orig));
            }
            return Err(EmbeddingError::BadIndices);
        }
        if slots[idx].is_some() {
            proof {
                assert(hit_after(orig, n - j, idx as int));
                let b = choose|b: int| n - j <= b < n && (#[trigger] orig[b]).0 == idx;
                assert(orig[a].0 == orig[b].0);
                assert(a < b);
                assert(!is_index_permutation(orig));
            }
            return Err(EmbeddingError::BadIndices);
        }
        slots.set(idx, Some(t));
        j = j + 1;
        proof {
            assert(items@ =~= orig.subrange(0, n - j));
            assert forall|s: int| 0 <= s < n implies (slots@[s] is Some <==> #[trigger] hit_after(orig, n - j, s)) by {
                if s == idx {
                    assert(orig[a].0 == s);
                }
                if slots@[s] is Some && s != idx {
                    assert(hit_after(orig, n - (j - 1), s));
                    let b = choose|b: int| n - (j - 1) <= b < n && (#[trigger] orig[b]).0 == s;
                    assert(n - j <= b);
                }
                if hit_after(orig, n - j, s) {
                    let b = choose|b: int| n - j <= b < n && (#[trigger] orig[b]).0 == s;
                    if b != a {
                        assert(n - (j - 1) <= b);
                        assert(hit_after(orig, n - (j - 1), s));
                    }
                }
            }
        }
    }
    proof {
        assert(j == n);
    }
    // Take the slots from the back, then turn them around.
    let mut rev: Vec<T> = Vec::new();
    while slots.len() > 0
        invariant
            orig == input@,
            n == orig.len(),
            slots.len() + rev.len() == n,
            forall|a: int| 0 <= a < n ==> (#[trigger] orig[a]).0 < n,
            forall|s: int| 0 <= s < slots.len() ==> (slots@[s] is Some <==> #[trigger] index_hit(orig, s)),
            forall|a: int| 0 <= a < n && (#[trigger] orig[a]).0 < slots.len() ==> slots@[orig[a].0 as int] == Some(orig[a].1),
            forall|s: int| slots.len() <= s < n ==> #[trigger] index_hit(orig, s),
            forall|a: int| 0 <= a < n && (#[trigger] orig[a]).0 >= slots.len() ==> rev@[n - 1 - orig[a].0] == orig[a].1,
        decreases slots.len(),
    {
        let last = slots.len() - 1;
        match slots.pop().unwrap() {
            Some(t) => {
                rev.push(t);
            },
            None => {
                proof {
                    assert(!index_hit(orig, last as int));
                    assert(0 <= last < orig.len());
                    assert(!is_index_permutation(orig));
                }
                return Err(EmbeddingError::BadIndices);
            },
        }
    }
    proof {
        assert(is_index_permutation(orig));
    }
    let mut out: Vec<T> = Vec::new();
    let ghost rv = rev@;
    while rev.len() > 0
        invariant
            orig == input@,
            rv.len() == n,
            rev@ == rv.subrange(0, rev.len() as int),
            out.len() + rev.len() == n,
            forall|k: int| 0 <= k < out.len() ==> out@[k] == rv[n - 1 - k],
        decreases rev.len(),
    {
        let t = rev.pop().unwrap();
        out.push(t);
        proof {
            assert(rev@ =~= rv.subrange(0, rev.len() as int));
        }
    }
    proof {
        assert forall|j: int| 0 <= j < n implies out@[(#[trigger] orig[j]).0 as int] == orig[j].1 by {
            let s = orig[j].0 as int;
            assert(rv[n - 1 - s] == orig[j].1);
        }
    }
    Ok(out)
}

} // verus!

verus! {

#[derive(Debug)]
/// Vectors gathered batch by batch, in the order of the texts.
pub struct EmbeddingCollector<T> {
    pub dim: usize,
    pub vectors: Vec<Vec<T>>,
}

/// The vectors of a valid response, in text order.
pub open spec fn ordered_vectors<T>(items: Seq<(usize, Vec<T>)>) -> Seq<Vec<T>> {
    Seq::new(items.len(), |s: int| items[choose|j: int| 0 <= j < items.len() && (#[trigger] items[j]).0 == s].1)
}

/// Whether every vector of a response has length `dim`.
pub open spec fn all_dim<T>(items: Seq<(usize, Vec<T>)>, dim: usize) -> bool {
    forall|j: int| 0 <= j < items.len() ==> (#[trigger] items[j]).1.len() == dim
}

impl<T> EmbeddingCollector<T> {
    /// Every collected vector has the collector's length.
    pub open spec fn wf(&self) -> bool {
        forall|k: int| 0 <= k < self.vectors.len() ==> (#[trigger] self.vectors@[k]).len() == self.dim
    }

    pub fn new(dim: usize) -> (r: Self)
        ensures
            r.wf(),
            r.dim == dim,
            r.vectors.len() == 0,
    {
        EmbeddingCollector { dim, vectors: Vec::new() }
    }

    /// Takes the response to a batch of `expected` texts: it must hold one vector per text,
    /// indexed `0..expected`, each of the collector's length; its vectors are appended in text
    /// order. A response that fails a check changes nothing.
    pub fn accept_batch(&mut self, expected: usize, items: Vec<(usize, Vec<T>)>) -> (r: Result<(), EmbeddingError>)
        requires
            old(self).wf(),
        ensures
            final(self).wf(),
            final(self).dim == old(self).dim,
            items.len() != expected ==> r == Err::<(), _>(EmbeddingError::WrongCount),
            items.len() == expected && !is_index_permutation(items@) ==> r == Err::<(), _>(EmbeddingError::BadIndices),
            items.len() == expected && is_index_permutation(items@) && !all_dim(items@, old(self).dim)
                ==> r == Err::<(), _>(EmbeddingError::WrongDimension),
            items.len() == expected && is_index_permutation(items@) && all_dim(items@, old(self).dim)
                ==> r is Ok && final(self).vectors@ == old(self).vectors@ + ordered_vectors(items@),
            r is Err ==> final(self).vectors@ == old(self).vectors@,
    {
        if items.len() != expected {
            return Err(EmbeddingError::WrongCount);
        }
        let mut j: usize = 0;
        let mut dims_ok = true;
        while j < items.len()
            invariant
                j <= items.len(),
                dims_ok == (forall|k: int| 0 <= k < j ==> (#[trigger] items@[k]).1.len() == self.dim),
            decreases items.len() - j,
        {
            if items[j].1.len() != self.dim {
                dims_ok = false;
            }
            j = j + 1;
        }
        let ghost orig = items@;
        let ordered = reorder_by_index(items)?;
        if !dims_ok {
            return Err(EmbeddingError::WrongDimension);
        }
        proof {
            assert forall|s: int| 0 <= s < ordered.len() implies ordered@[s] == ordered_vectors(orig)[s] by {
                assert(index_hit(orig, s));
                let j = choose|j: int| 0 <= j < orig.len() && (#[trigger] orig[j]).0 == s;
                let c = choose|j: int| 0 <= j < orig.len() && (#[trigger] orig[j]).0 == s;
                if c != j {
                    if c < j {
                        assert(orig[c].0 != orig[j].0);
                    } else {
                        assert(orig[j].0 != orig[c].0);
                    }
                }
                assert(ordered@[orig[j].0 as int] == orig[j].1);
            }
            assert(ordered@ =~= ordered_vectors(orig));
        }
        let mut ordered = ordered;
        let ghost before = self.vectors@;
        let ghost add = ordered@;
        let mut tail: Vec<Vec<T>> = Vec::new();
        while ordered.len() > 0
            invariant
                ordered@ == add.subrange(0, ordered.len() as int),
                tail.len() + ordered.len() == add.len(),
                forall|k: int| 0 <= k < tail.len() ==> tail@[k] == add[add.len() - 1 - k],
            decreases ordered.len(),
        {
            let v = ordered.pop().unwrap();
            tail.push(v);
            proof {
                assert(ordered@ =~= add.subrange(0, ordered.len() as int));
            }
        }
        while tail.len() > 0
            invariant
                self.dim == old(self).dim,
                self.vectors@.len() + tail.len() == before.len() + add.len(),
                self.vectors@.len() >= before.len(),
                forall|k: int| 0 <= k < tail.len() ==> tail@[k] == add[add.len() - 1 - k],
                self.vectors@ == before + add.subrange(0, self.vectors@.len() - before.len()),
            decreases tail.len(),
        {
            let v = tail.pop().unwrap();
            let ghost m = self.vectors@.len() - before.len();
            self.vectors.push(v);
            proof {
                assert(add.subrange(0, m + 1) =~= add.subrange(0, m).push(add[m]));
                assert(self.vectors@ =~= before + add.subrange(0, self.vectors@.len() - before.len()));
            }
        }
        proof {
            assert(add.subrange(0, add.len() as int) =~= add);
            assert forall|k: int| 0 <= k < self.vectors.len() implies (#[trigger] self.vectors@[k]).len() == self.dim by {
                if k >= before.len() {
                    let s = k - before.len();
                    assert(index_hit(orig, s));
                    let j = choose|j: int| 0 <= j < orig.len() && (#[trigger] orig[j]).0 == s;
                    assert(orig[j].1.len() == self.dim);
                }
            }
        }
        Ok(())
    }
}

/// Every vector a collector made for the embedding provider holds has 1536 components.
pub proof fn lemma_embedding_dimension<T>(c: EmbeddingCollector<T>)
    requires
        c.wf(),
        c.dim == EMBEDDING_DIM,
    ensures
        forall|k: int| 0 <= k < c.vectors.len() ==> (#[trigger] c.vectors@[k]).len() == 1536,
{
}

/// Where a run of failed attempts leaves the retry policy: the state to retry from, or
/// `None` once it gives up. Each entry tells whether that failure was retryable.
pub open spec fn after_failures(s: RetryState, fails: Seq<bool>, max_retries: u32) -> Option<RetryState>
    decreases fails.len(),
{
    if fails.len() == 0 {
        Some(s)
    } else if s.retries < max_retries && fails[0] {
        after_failures(
            RetryState { retries: (s.retries + 1) as u32, delay_ms: next_delay(s.delay_ms) },
            fails.drop_first(),
            max_retries,
        )
    } else {
        None
    }
}

/// Up to three retryable failures leave the policy still trying, so the attempt that
/// finally succeeds is taken through `accept_batch`, whose outcome depends on the response
/// alone: a retried batch yields the same ordered vectors as one that succeeded at once.
pub proof fn lemma_retry_then_success(fails: Seq<bool>)
    requires
        fails.len() <= MAX_RETRIES,
        forall|k: int| 0 <= k < fails.len() ==> #[trigger] fails[k],
    ensures
        after_failures(RetryState { retries: 0, delay_ms: INITIAL_DELAY_MS }, fails, MAX_RETRIES) is Some,
{
    lemma_retry_run(RetryState { retries: 0, delay_ms: INITIAL_DELAY_MS }, fails);
}

proof fn lemma_retry_run(s: RetryState, fails: Seq<bool>)
    requires
        s.retries + fails.len() <= MAX_RETRIES,
        forall|k: int| 0 <= k < fails.len() ==> #[trigger] fails[k],
    ensures
        after_failures(s, fails, MAX_RETRIES) is Some,
    decreases fails.len(),
{
    if fails.len() > 0 {
        assert(fails[0]);
        let t = fails.drop_first();
        assert forall|k: int| 0 <= k < t.len() implies #[trigger] t[k] by {
            assert(t[k] == fails[k + 1]);
        }
        lemma_retry_run(
            RetryState { retries: (s.retries + 1) as u32, delay_ms: next_delay(s.delay_ms) },
            t,
        );
    }
}

} // verus!
