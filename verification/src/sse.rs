//! Frame decoder for the line-oriented streaming wire format.
//!
//! A chunked response body arrives as an append-only character buffer.
//! Complete lines are repeatedly split off (a trailing carriage return is
//! trimmed); the unconsumed partial line stays buffered. A line carries an
//! event only when it starts with the `data:` prefix; the payload `[DONE]`
//! is the end-of-stream sentinel.
use vstd::prelude::*;
use crate::text::{chars_of, string_of, trim_spec, trim_chars};

verus! {

/// The index of the first newline in `s`, or `s.len()` if there is none.
pub open spec fn nl_index(s: Seq<char>) -> int
    decreases s.len(),
{
    if s.len() == 0 {
        0
    } else if s[0] == '\n' {
        0
    } else {
        1 + nl_index(s.skip(1))
    }
}

/// `nl_index` finds the first newline: it is in bounds, points at a newline
/// when one exists, and nothing before it is a newline.
pub proof fn lemma_nl_index(s: Seq<char>)
    ensures
        0 <= nl_index(s) <= s.len(),
        nl_index(s) < s.len() ==> s[nl_index(s)] == '\n',
        forall|j: int| 0 <= j < nl_index(s) ==> s[j] != '\n',
    decreases s.len(),
{
    if s.len() > 0 && s[0] != '\n' {
        lemma_nl_index(s.skip(1));
        assert(forall|j: int| 1 <= j < nl_index(s) ==> s[j] == s.skip(1)[j - 1]);
    }
}

/// Whether the buffer holds a complete line.
pub open spec fn has_newline(s: Seq<char>) -> bool {
    nl_index(s) < s.len()
}

/// The first complete line of `s`, with a trailing carriage return trimmed.
pub open spec fn sse_line_of(s: Seq<char>) -> Seq<char> {
    let raw = s.take(nl_index(s));
    if raw.len() > 0 && raw[raw.len() - 1] == '\r' {
        raw.take(raw.len() - 1)
    } else {
        raw
    }
}

/// What stays buffered after the first complete line is taken.
pub open spec fn sse_rest_of(s: Seq<char>) -> Seq<char> {
    s.skip(nl_index(s) + 1)
}

/// All complete lines of `s`, in order.
pub open spec fn sse_lines_of(s: Seq<char>) -> Seq<Seq<char>>
    decreases s.len() via sse_lines_of_decreases
{
    if has_newline(s) {
        seq![sse_line_of(s)] + sse_lines_of(sse_rest_of(s))
    } else {
        Seq::empty()
    }
}

#[via_fn]
proof fn sse_lines_of_decreases(s: Seq<char>) {
    lemma_nl_index(s);
}

/// What stays buffered after every complete line is taken.
pub open spec fn sse_remainder_of(s: Seq<char>) -> Seq<char>
    decreases s.len() via sse_remainder_of_decreases
{
    if has_newline(s) {
        sse_remainder_of(sse_rest_of(s))
    } else {
        s
    }
}

#[via_fn]
proof fn sse_remainder_of_decreases(s: Seq<char>) {
    lemma_nl_index(s);
}

/// Takes one complete line off the front of `buffer`, trimming an optional
/// trailing carriage return; with no complete line buffered, nothing moves.
pub fn sse_take_line(buffer: &mut String) -> (r: Option<String>)
    ensures
        has_newline(old(buffer)@) ==> (r matches Some(line) && line@ == sse_line_of(old(buffer)@)
            && final(buffer)@ == sse_rest_of(old(buffer)@)),
        !has_newline(old(buffer)@) ==> r is None && final(buffer)@ == old(buffer)@,
{
    let ghost s = buffer@;
    proof {
        lemma_nl_index(s);
    }
    let chars = chars_of(buffer.as_str());
    let n = chars.len();
    let mut i: usize = 0;
    while i < n && chars[i] != '\n'
        invariant
            n == chars@.len(),
            chars@ == s,
            i <= n,
            forall|j: int| 0 <= j < i ==> s[j] != '\n',
        decreases n - i,
    {
        i = i + 1;
    }
    if i == n {
        proof {
            if has_newline(s) {
                assert(s[nl_index(s)] == '\n');
            }
        }
        return None;
    }
    proof {
        // i is the first newline, so it is nl_index(s)
        if nl_index(s) < i {
            assert(s[nl_index(s)] == '\n');
        }
    }
    let mut end: usize = i;
    if end > 0 && chars[end - 1] == '\r' {
        end = end - 1;
    }
    let mut line_chars: Vec<char> = Vec::new();
    let mut k: usize = 0;
    while k < end
        invariant
            chars@ == s,
            end <= i < n == s.len(),
            k <= end,
            line_chars@ == s.take(end as int).take(k as int),
        decreases end - k,
    {
        line_chars.push(chars[k]);
        k = k + 1;
        proof {
            assert(line_chars@ =~= s.take(end as int).take(k as int));
        }
    }
    proof {
        assert(line_chars@ =~= s.take(end as int));
        assert(line_chars@ =~= sse_line_of(s));
    }
    let line = string_of(&line_chars);
    let mut rest_chars: Vec<char> = Vec::new();
    let mut k2: usize = i + 1;
    while k2 < n
        invariant
            chars@ == s,
            i < n == s.len(),
            i + 1 <= k2 <= n,
            rest_chars@ == s.subrange(i + 1, k2 as int),
        decreases n - k2,
    {
        rest_chars.push(chars[k2]);
        k2 = k2 + 1;
        proof {
            assert(rest_chars@ =~= s.subrange(i + 1, k2 as int));
        }
    }
    proof {
        assert(rest_chars@ =~= sse_rest_of(s));
    }
    *buffer = string_of(&rest_chars);
    Some(line)
}

/// The views of a vector of strings.
pub open spec fn views_of(v: Seq<String>) -> Seq<Seq<char>> {
    v.map_values(|l: String| l@)
}

/// Takes every complete line off the front of `buffer`, in order.
pub fn sse_drain_lines(buffer: &mut String) -> (r: Vec<String>)
    ensures
        views_of(r@) == sse_lines_of(old(buffer)@),
        final(buffer)@ == sse_remainder_of(old(buffer)@),
{
    let ghost s0 = buffer@;
    let mut out: Vec<String> = Vec::new();
    proof {
        assert(views_of(out@) + sse_lines_of(s0) =~~= sse_lines_of(s0));
    }
    loop
        invariant
            s0 == old(buffer)@,
            views_of(out@) + sse_lines_of(buffer@) == sse_lines_of(s0),
            sse_remainder_of(buffer@) == sse_remainder_of(s0),
        decreases buffer@.len(),
    {
        let ghost before = buffer@;
        proof {
            lemma_nl_index(before);
        }
        match sse_take_line(buffer) {
            Some(line) => {
                proof {
                    assert(has_newline(before));
                    assert(sse_lines_of(before) == seq![sse_line_of(before)] + sse_lines_of(
                        sse_rest_of(before)));
                }
                out.push(line);
                proof {
                    assert(views_of(out@) + sse_lines_of(buffer@) =~~= sse_lines_of(s0));
                }
            },
            None => {
                proof {
                    assert(!has_newline(before));
                    assert(sse_lines_of(buffer@) =~~= Seq::<Seq<char>>::empty());
                    assert(views_of(out@) =~~= sse_lines_of(s0));
                    assert(sse_remainder_of(buffer@) == buffer@);
                }
                return out;
            },
        }
    }
}

/// The event-line prefix.
pub open spec fn data_prefix() -> Seq<char> {
    seq!['d', 'a', 't', 'a', ':']
}

/// The payload of an event line: what follows `data:`, trimmed; `None` for a
/// line without the prefix, which the decoder ignores.
pub open spec fn sse_payload_of(line: Seq<char>) -> Option<Seq<char>> {
    if line.len() >= 5 && line.take(5) == data_prefix() {
        Option::Some(trim_spec(line.skip(5)))
    } else {
        Option::None
    }
}

/// Extracts the trimmed payload of an event line, or `None` when the line
/// carries no `data:` prefix.
pub fn sse_payload(line: &str) -> (r: Option<String>)
    ensures
        match r {
            Some(p) => sse_payload_of(line@) == Option::Some(p@),
            None => sse_payload_of(line@) is None,
        },
{
    let chars = chars_of(line);
    if chars.len() < 5 {
        proof {
            assert(sse_payload_of(line@) is None);
        }
        return None;
    }
    let p0 = chars[0] == 'd' && chars[1] == 'a' && chars[2] == 't' && chars[3] == 'a'
        && chars[4] == ':';
    if !p0 {
        proof {
            if line@.take(5) == data_prefix() {
                assert(line@[0] == line@.take(5)[0]);
                assert(line@[1] == line@.take(5)[1]);
                assert(line@[2] == line@.take(5)[2]);
                assert(line@[3] == line@.take(5)[3]);
                assert(line@[4] == line@.take(5)[4]);
            }
        }
        return None;
    }
    proof {
        assert(line@.take(5) =~= data_prefix());
    }
    let mut tail_chars: Vec<char> = Vec::new();
    let mut k: usize = 5;
    let n = chars.len();
    while k < n
        invariant
            chars@ == line@,
            5 <= k <= n == line@.len(),
            tail_chars@ == line@.subrange(5, k as int),
        decreases n - k,
    {
        tail_chars.push(chars[k]);
        k = k + 1;
        proof {
            assert(tail_chars@ =~= line@.subrange(5, k as int));
        }
    }
    proof {
        assert(tail_chars@ =~= line@.skip(5));
    }
    let trimmed = trim_chars(&tail_chars);
    Some(string_of(&trimmed))
}

/// The end-of-stream sentinel payload.
pub open spec fn done_sentinel() -> Seq<char> {
    seq!['[', 'D', 'O', 'N', 'E', ']']
}

/// Whether a payload is the end-of-stream sentinel.
pub fn is_done_sentinel(payload: &str) -> (r: bool)
    ensures
        r == (payload@ == done_sentinel()),
{
    let chars = chars_of(payload);
    if chars.len() != 6 {
        proof {
            if payload@ == done_sentinel() {
                assert(payload@.len() == 6);
            }
        }
        return false;
    }
    let r = chars[0] == '[' && chars[1] == 'D' && chars[2] == 'O' && chars[3] == 'N'
        && chars[4] == 'E' && chars[5] == ']';
    proof {
        if r {
            assert(payload@ =~= done_sentinel());
        } else {
            if payload@ == done_sentinel() {
                assert(payload@[0] == '[' && payload@[1] == 'D' && payload@[2] == 'O'
                    && payload@[3] == 'N' && payload@[4] == 'E' && payload@[5] == ']');
            }
        }
    }
    r
}

}
