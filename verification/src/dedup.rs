//! Overlap deduplicator: merges a new text chunk into the accumulated
//! transcript, dropping the chunk prefix that already ends the transcript.
//!
//! Both provider resume behaviour and the continuation prompt can redeliver a
//! trailing slice of already-seen text; the deduplicator finds the longest
//! suffix of the transcript equal to a prefix of the chunk, within a bounded
//! lookback window, and appends only what follows it.
use vstd::prelude::*;
use crate::text::{chars_of, string_of, push_char};

verus! {

/// How far back (in characters) the deduplicator looks for an overlap, and
/// how much of the chunk head it considers.
pub const MAX_OVERLAP_CHARS: usize = 4096;

/// The last `k` characters of `t` equal the first `k` characters of `c`.
pub open spec fn overlap_at(t: Seq<char>, c: Seq<char>, k: int) -> bool {
    0 <= k <= t.len() && k <= c.len() && t.skip(t.len() - k) == c.take(k)
}

/// The largest `k <= cap` with [`overlap_at`], or zero if none.
pub open spec fn max_overlap(t: Seq<char>, c: Seq<char>, cap: int) -> int
    decreases cap,
{
    if cap <= 0 {
        0
    } else if overlap_at(t, c, cap) {
        cap
    } else {
        max_overlap(t, c, cap - 1)
    }
}

/// The window the deduplicator searches: no overlap candidate can be longer
/// than the transcript, the chunk, or the fixed lookback bound.
pub open spec fn overlap_cap(t: Seq<char>, c: Seq<char>) -> int {
    vstd::math::min(
        MAX_OVERLAP_CHARS as int,
        vstd::math::min(t.len() as int, c.len() as int),
    )
}

/// `max_overlap` stays within bounds and, unless zero, is itself an overlap.
pub proof fn lemma_max_overlap_bounds(t: Seq<char>, c: Seq<char>, cap: int)
    ensures
        0 <= max_overlap(t, c, cap) <= vstd::math::max(cap, 0),
        max_overlap(t, c, cap) != 0 ==> overlap_at(t, c, max_overlap(t, c, cap)),
        overlap_at(t, c, 0) ==> overlap_at(t, c, max_overlap(t, c, cap)),
    decreases cap,
{
    if cap > 0 && !overlap_at(t, c, cap) {
        lemma_max_overlap_bounds(t, c, cap - 1);
    }
    if overlap_at(t, c, 0) && max_overlap(t, c, cap) == 0 {
        assert(overlap_at(t, c, max_overlap(t, c, cap)));
    }
}

/// `max_overlap` really is the largest: any `k <= cap` that overlaps is at
/// most `max_overlap(t, c, cap)`.
pub proof fn lemma_max_overlap_is_largest(t: Seq<char>, c: Seq<char>, cap: int, k: int)
    requires
        overlap_at(t, c, k),
        k <= cap,
    ensures
        k <= max_overlap(t, c, cap),
    decreases cap,
{
    if cap > 0 && !overlap_at(t, c, cap) {
        if k == cap {
            assert(false);
        }
        lemma_max_overlap_is_largest(t, c, cap - 1, k);
    }
}

/// What one deduplicating append does to a transcript: the reported overlap
/// length and the transcript afterwards.
pub open spec fn dedup_overlap(t: Seq<char>, c: Seq<char>) -> int {
    max_overlap(t, c, overlap_cap(t, c))
}

/// The unique suffix of the chunk that a deduplicating append adds.
pub open spec fn dedup_appended(t: Seq<char>, c: Seq<char>) -> Seq<char> {
    c.skip(dedup_overlap(t, c))
}


/// Whether the last `len` characters of `t` equal the first `len` of `c`.
fn check_overlap_at(t: &Vec<char>, c: &Vec<char>, len: usize) -> (r: bool)
    requires
        len <= t@.len(),
        len <= c@.len(),
    ensures
        r == overlap_at(t@, c@, len as int),
{
    let tn = t.len();
    let mut j: usize = 0;
    while j < len
        invariant
            tn == t@.len(),
            len <= t@.len(),
            len <= c@.len(),
            j <= len,
            forall|k: int| 0 <= k < j ==> t@[t@.len() - len + k] == c@[k],
        decreases len - j,
    {
        if t[tn - len + j] != c[j] {
            proof {
                if overlap_at(t@, c@, len as int) {
                    assert(t@.skip(t@.len() - len)[j as int] == c@.take(len as int)[j as int]);
                }
            }
            return false;
        }
        j = j + 1;
    }
    proof {
        assert(t@.skip(t@.len() - len) =~= c@.take(len as int));
    }
    true
}

/// The longest overlap between the end of `t` and the start of `c`, searched
/// downward from `bound`.
fn find_overlap(t: &Vec<char>, c: &Vec<char>, bound: usize) -> (r: usize)
    requires
        bound <= t@.len(),
        bound <= c@.len(),
    ensures
        r as int == max_overlap(t@, c@, bound as int),
{
    let mut len: usize = bound;
    while len > 0
        invariant
            bound <= t@.len(),
            bound <= c@.len(),
            len <= bound,
            max_overlap(t@, c@, bound as int) == max_overlap(t@, c@, len as int),
        decreases len,
    {
        if check_overlap_at(t, c, len) {
            return len;
        }
        len = len - 1;
    }
    0
}

/// Merges `chunk` into `full_text`, skipping the longest prefix of `chunk`
/// (up to [`MAX_OVERLAP_CHARS`] characters) that already ends `full_text`.
/// Returns the overlap length and the appended unique suffix.
pub fn append_chunk_with_overlap(full_text: &mut String, chunk: &str) -> (r: (usize, String))
    ensures
        r.0 == dedup_overlap(old(full_text)@, chunk@),
        r.1@ == dedup_appended(old(full_text)@, chunk@),
        final(full_text)@ == old(full_text)@ + dedup_appended(old(full_text)@, chunk@),
{
    let ghost t = full_text@;
    let ghost c = chunk@;
    let ghost cap = overlap_cap(t, c);
    let chunk_chars = chars_of(chunk);
    if chunk_chars.len() == 0 {
        proof {
            assert(max_overlap(t, c, cap) == 0);
            assert(t + c.skip(0) =~= t);
        }
        return (0, String::new());
    }
    let text_chars = chars_of(full_text.as_str());
    let tn = text_chars.len();
    let cn = chunk_chars.len();
    let mut bound: usize = if tn < cn { tn } else { cn };
    if bound > MAX_OVERLAP_CHARS {
        bound = MAX_OVERLAP_CHARS;
    }
    proof {
        assert(bound as int == cap);
    }
    // Search longest-to-shortest; the first match wins.
    let overlap = find_overlap(&text_chars, &chunk_chars, bound);
    proof {
        assert(overlap as int == dedup_overlap(t, c));
        lemma_max_overlap_bounds(t, c, bound as int);
    }
    // append the unique suffix
    let mut suffix_chars: Vec<char> = Vec::new();
    proof {
        assert(suffix_chars@ =~= c.subrange(overlap as int, overlap as int));
    }
    let mut i: usize = overlap;
    while i < cn
        invariant
            chunk_chars@ == c,
            cn == c.len(),
            overlap <= i <= cn,
            suffix_chars@ == c.subrange(overlap as int, i as int),
        decreases cn - i,
    {
        suffix_chars.push(chunk_chars[i]);
        i = i + 1;
        proof {
            assert(suffix_chars@ =~= c.subrange(overlap as int, i as int));
        }
    }
    proof {
        assert(suffix_chars@ =~= c.skip(overlap as int));
    }
    let suffix = string_of(&suffix_chars);
    let mut k: usize = 0;
    while k < suffix_chars.len()
        invariant
            suffix_chars@ == c.skip(dedup_overlap(t, c)),
            k <= suffix_chars@.len(),
            full_text@ == t + c.skip(dedup_overlap(t, c)).take(k as int),
        decreases suffix_chars@.len() - k,
    {
        push_char(full_text, suffix_chars[k]);
        k = k + 1;
        proof {
            assert(full_text@ =~= t + c.skip(dedup_overlap(t, c)).take(k as int));
        }
    }
    proof {
        assert(full_text@ =~= t + dedup_appended(t, c));
    }
    (overlap, suffix)
}

/// The deduplicator reports the largest window-bounded overlap: if the first
/// `k` characters of the chunk equal the last `k` characters of the
/// transcript for some `k` within the window, then exactly `chunk[k..]` of
/// some `k' >= k` is appended, and the reported overlap is at least `k`.
pub proof fn lemma_dedup_reports_largest_overlap(t: Seq<char>, c: Seq<char>, k: int)
    requires
        overlap_at(t, c, k),
        k <= MAX_OVERLAP_CHARS as int,
    ensures
        k <= dedup_overlap(t, c),
        overlap_at(t, c, dedup_overlap(t, c)),
        dedup_appended(t, c) == c.skip(dedup_overlap(t, c)),
{
    lemma_max_overlap_is_largest(t, c, overlap_cap(t, c), k);
    lemma_max_overlap_bounds(t, c, overlap_cap(t, c));
    if dedup_overlap(t, c) == 0 {
        assert(t.skip(t.len() - 0) =~= c.take(0));
    }
}

/// Deduplication never splits a character: what is appended is a whole-
/// character suffix of the chunk, and the new transcript is the old one with
/// exactly that suffix concatenated. Working on character sequences rather
/// than bytes, no multi-byte glyph can be cut apart.
pub proof fn lemma_dedup_appends_whole_chars(t: Seq<char>, c: Seq<char>)
    ensures
        0 <= dedup_overlap(t, c) <= c.len(),
        dedup_appended(t, c) == c.skip(dedup_overlap(t, c)),
        (t + dedup_appended(t, c)).len() == t.len() + c.len() - dedup_overlap(t, c),
{
    lemma_max_overlap_bounds(t, c, overlap_cap(t, c));
}

}
