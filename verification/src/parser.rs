//! Parser for the file-modification instructions an assistant reply may
//! carry.
//!
//! A reply can embed blocks of the form
//! `<file_edit path="...">...</file_edit>`, whose bodies hold `<replace
//! lines="a-b">text</replace>`, `<insert at="n">text</insert>` and
//! `<delete lines="a-b" />` tags. All forms share one shape — an opening
//! literal, whitespace, a quoted attribute value, then either a body up to
//! a closing literal or a self-closing tail — scanned left to right,
//! first complete match first.
use vstd::prelude::*;
use crate::text::{is_ws, is_ws_char, match_at, chars_of, string_of, find_first, trim_chars,
    trim_spec, contains_seq, str_contains};
use crate::modification::{Modification, ModificationType, ModificationStatus, FileModification,
    FileModificationStatus, ChangeSet, mod_id_seq, make_mod_id, now_unix_millis};

verus! {

/// A decimal digit.
pub open spec fn is_digit(c: char) -> bool {
    '0' <= c && c <= '9'
}

/// The first position at or after `i` whose character is not whitespace.
pub open spec fn skip_ws_idx(s: Seq<char>, i: int) -> int
    decreases s.len() - i when 0 <= i <= s.len()
{
    if i < s.len() && is_ws(s[i]) {
        skip_ws_idx(s, i + 1)
    } else {
        i
    }
}

/// The first position at or after `i` whose character is not a digit.
pub open spec fn skip_digits_idx(s: Seq<char>, i: int) -> int
    decreases s.len() - i when 0 <= i <= s.len()
{
    if i < s.len() && is_digit(s[i]) {
        skip_digits_idx(s, i + 1)
    } else {
        i
    }
}

/// The first position at or after `i` holding a double quote, or the end.
pub open spec fn skip_nonquote_idx(s: Seq<char>, i: int) -> int
    decreases s.len() - i when 0 <= i <= s.len()
{
    if i < s.len() && s[i] != '"' {
        skip_nonquote_idx(s, i + 1)
    } else {
        i
    }
}

/// The first position at or after `from` where `nd` occurs, or `-1`.
pub open spec fn find_idx(s: Seq<char>, from: int, nd: Seq<char>) -> int
    decreases s.len() + 1 - from when 0 <= from <= s.len() + 1
{
    if from + nd.len() > s.len() {
        -1
    } else if match_at(s, nd, from) {
        from
    } else {
        find_idx(s, from + 1, nd)
    }
}

/// The three position scanners stay within bounds and move only forward.
pub proof fn lemma_skip_bounds(s: Seq<char>, i: int)
    requires
        0 <= i <= s.len(),
    ensures
        i <= skip_ws_idx(s, i) <= s.len(),
        i <= skip_digits_idx(s, i) <= s.len(),
        i <= skip_nonquote_idx(s, i) <= s.len(),
    decreases s.len() - i,
{
    if i < s.len() {
        lemma_skip_bounds(s, i + 1);
    }
}

/// `find_idx` is the first match position: in bounds when found, with no
/// match anywhere before it, and no match at all when `-1`.
pub proof fn lemma_find_idx_bounds(s: Seq<char>, from: int, nd: Seq<char>)
    requires
        0 <= from <= s.len() + 1,
    ensures
        find_idx(s, from, nd) == -1 || (from <= find_idx(s, from, nd) && find_idx(s, from, nd)
            + nd.len() <= s.len() && match_at(s, nd, find_idx(s, from, nd))),
        find_idx(s, from, nd) == -1 ==> forall|j: int| from <= j ==> !match_at(s, nd, j),
        forall|j: int| from <= j < find_idx(s, from, nd) ==> !match_at(s, nd, j),
    decreases s.len() + 1 - from,
{
    if from + nd.len() > s.len() {
    } else if !match_at(s, nd, from) {
        lemma_find_idx_bounds(s, from + 1, nd);
    }
}

/// One matched tag, described abstractly: the one or two attribute values,
/// the body, and the position right after the whole tag.
#[verifier::ext_equal]
pub struct TagMatch {
    pub v1: Seq<char>,
    pub v2: Seq<char>,
    pub body: Seq<char>,
    pub next: int,
}

/// The tail of a tag once its attribute values end at `e`: either the
/// self-closing `"` … `/>`, or `">` followed by a body up to the closing
/// literal.
pub open spec fn match_tail_at(
    s: Seq<char>,
    v1: Seq<char>,
    v2: Seq<char>,
    e: int,
    selfclose: bool,
    close: Seq<char>,
) -> Option<TagMatch>
    recommends
        0 <= e <= s.len(),
{
    if selfclose {
        if e < s.len() && s[e] == '"' {
            let q = skip_ws_idx(s, e + 1);
            if match_at(s, "/>"@, q) {
                Option::Some(TagMatch { v1, v2, body: Seq::empty(), next: q + 2 })
            } else {
                Option::None
            }
        } else {
            Option::None
        }
    } else {
        if match_at(s, "\">"@, e) {
            let b0 = e + 2;
            let c = find_idx(s, b0, close);
            if c >= 0 {
                Option::Some(
                    TagMatch { v1, v2, body: s.subrange(b0, c), next: c + close.len() },
                )
            } else {
                Option::None
            }
        } else {
            Option::None
        }
    }
}

/// A full tag anchored at position `p`, which must hold the opening
/// literal: whitespace, the attribute literal, one value (digits, or any
/// run up to a quote), optionally `-` and a second digit value, then the
/// tail.
pub open spec fn match_tag_at(
    s: Seq<char>,
    p: int,
    open: Seq<char>,
    attr: Seq<char>,
    two: bool,
    selfclose: bool,
    close: Seq<char>,
    any_value: bool,
) -> Option<TagMatch>
    recommends
        0 <= p,
        p + open.len() <= s.len(),
{
    let a = p + open.len();
    let w = skip_ws_idx(s, a);
    if w <= a {
        Option::None
    } else if !match_at(s, attr, w) {
        Option::None
    } else {
        let v1s = w + attr.len();
        let v1e = if any_value {
            skip_nonquote_idx(s, v1s)
        } else {
            skip_digits_idx(s, v1s)
        };
        if v1e <= v1s {
            Option::None
        } else {
            let v1 = s.subrange(v1s, v1e);
            if two {
                if v1e < s.len() && s[v1e] == '-' {
                    let v2s = v1e + 1;
                    let v2e = skip_digits_idx(s, v2s);
                    if v2e <= v2s {
                        Option::None
                    } else {
                        match_tail_at(s, v1, s.subrange(v2s, v2e), v2e, selfclose, close)
                    }
                } else {
                    Option::None
                }
            } else {
                match_tail_at(s, v1, v1, v1e, selfclose, close)
            }
        }
    }
}

/// A matched tag ends after the position it was anchored at, within the
/// text.
pub proof fn lemma_match_tag_next(
    s: Seq<char>,
    p: int,
    open: Seq<char>,
    attr: Seq<char>,
    two: bool,
    selfclose: bool,
    close: Seq<char>,
    any_value: bool,
)
    requires
        0 <= p,
        p + open.len() <= s.len(),
    ensures
        match match_tag_at(s, p, open, attr, two, selfclose, close, any_value) {
            Option::Some(m) => p < m.next <= s.len(),
            Option::None => true,
        },
{
    let a = p + open.len();
    lemma_skip_bounds(s, a);
    let w = skip_ws_idx(s, a);
    if w > a && match_at(s, attr, w) {
        let v1s = w + attr.len();
        lemma_skip_bounds(s, v1s);
        let v1e = if any_value {
            skip_nonquote_idx(s, v1s)
        } else {
            skip_digits_idx(s, v1s)
        };
        if v1e > v1s {
            if two {
                if v1e < s.len() && s[v1e] == '-' {
                    lemma_skip_bounds(s, v1e + 1);
                    let v2e = skip_digits_idx(s, v1e + 1);
                    if v2e > v1e + 1 {
                        lemma_match_tail_next(s, p, v2e, selfclose, close);
                    }
                }
            } else {
                lemma_match_tail_next(s, p, v1e, selfclose, close);
            }
        }
    }
}

/// The tail of a matched tag ends after its start, within the text.
proof fn lemma_match_tail_next(s: Seq<char>, p: int, e: int, selfclose: bool, close: Seq<char>)
    requires
        0 <= p < e <= s.len(),
    ensures
        match match_tail_at(s, Seq::empty(), Seq::empty(), e, selfclose, close) {
            Option::Some(m) => p < m.next <= s.len(),
            Option::None => true,
        },
        forall|v1: Seq<char>, v2: Seq<char>|
            match #[trigger] match_tail_at(s, v1, v2, e, selfclose, close) {
                Option::Some(m) => p < m.next <= s.len(),
                Option::None => true,
            },
{
    reveal_strlit("/>");
    reveal_strlit("\">");
    if selfclose {
        if e < s.len() && s[e] == '"' {
            lemma_skip_bounds(s, e + 1);
        }
    } else {
        if match_at(s, "\">"@, e) {
            lemma_find_idx_bounds(s, e + 2, close);
        }
    }
}

/// Every tag of the given shape in `s`, scanning left to right from
/// `from`; a failed partial match resumes just past its opening literal.
pub open spec fn scan_tags(
    s: Seq<char>,
    from: int,
    open: Seq<char>,
    attr: Seq<char>,
    two: bool,
    selfclose: bool,
    close: Seq<char>,
    any_value: bool,
) -> Seq<TagMatch>
    decreases s.len() - from when 0 <= from <= s.len() + 1 && open.len() > 0 via scan_tags_decreases
{
    let p = find_idx(s, from, open);
    if p < 0 {
        Seq::empty()
    } else {
        match match_tag_at(s, p, open, attr, two, selfclose, close, any_value) {
            Option::Some(m) => seq![m] + scan_tags(
                s,
                m.next,
                open,
                attr,
                two,
                selfclose,
                close,
                any_value,
            ),
            Option::None => scan_tags(s, p + 1, open, attr, two, selfclose, close, any_value),
        }
    }
}

#[via_fn]
proof fn scan_tags_decreases(
    s: Seq<char>,
    from: int,
    open: Seq<char>,
    attr: Seq<char>,
    two: bool,
    selfclose: bool,
    close: Seq<char>,
    any_value: bool,
) {
    lemma_find_idx_bounds(s, from, open);
    let p = find_idx(s, from, open);
    if p >= 0 {
        lemma_match_tag_next(s, p, open, attr, two, selfclose, close, any_value);
    }
}

/// One matched tag as executable values.
pub struct RawTag {
    pub v1: String,
    pub v2: String,
    pub body: String,
}

/// The abstract description of a raw tag.
pub open spec fn raw_tag_matches(r: RawTag, m: TagMatch) -> bool {
    r.v1@ == m.v1 && r.v2@ == m.v2 && r.body@ == m.body
}

/// Copies `s[a..b)` into a string.
fn subrange_string(chars: &Vec<char>, a: usize, b: usize) -> (r: String)
    requires
        a <= b <= chars@.len(),
    ensures
        r@ == chars@.subrange(a as int, b as int),
{
    let mut out: Vec<char> = Vec::new();
    let mut i: usize = a;
    proof {
        assert(out@ =~= chars@.subrange(a as int, a as int));
    }
    while i < b
        invariant
            a <= i <= b <= chars@.len(),
            out@ == chars@.subrange(a as int, i as int),
        decreases b - i,
    {
        out.push(chars[i]);
        i = i + 1;
        proof {
            assert(out@ =~= chars@.subrange(a as int, i as int));
        }
    }
    string_of(&out)
}

/// The first non-whitespace position at or after `i`.
fn skip_ws_exec(chars: &Vec<char>, i: usize) -> (r: usize)
    requires
        i <= chars@.len(),
    ensures
        r == skip_ws_idx(chars@, i as int),
        i <= r <= chars@.len(),
{
    let n = chars.len();
    let mut j = i;
    while j < n && is_ws_char(chars[j])
        invariant
            i <= j <= n == chars@.len(),
            skip_ws_idx(chars@, i as int) == skip_ws_idx(chars@, j as int),
        decreases n - j,
    {
        j = j + 1;
    }
    j
}

/// The first non-digit position at or after `i`.
fn skip_digits_exec(chars: &Vec<char>, i: usize) -> (r: usize)
    requires
        i <= chars@.len(),
    ensures
        r == skip_digits_idx(chars@, i as int),
        i <= r <= chars@.len(),
{
    let n = chars.len();
    let mut j = i;
    while j < n && '0' <= chars[j] && chars[j] <= '9'
        invariant
            i <= j <= n == chars@.len(),
            skip_digits_idx(chars@, i as int) == skip_digits_idx(chars@, j as int),
        decreases n - j,
    {
        j = j + 1;
    }
    j
}

/// The first quote position at or after `i`, or the end.
fn skip_nonquote_exec(chars: &Vec<char>, i: usize) -> (r: usize)
    requires
        i <= chars@.len(),
    ensures
        r == skip_nonquote_idx(chars@, i as int),
        i <= r <= chars@.len(),
{
    let n = chars.len();
    let mut j = i;
    while j < n && chars[j] != '"'
        invariant
            i <= j <= n == chars@.len(),
            skip_nonquote_idx(chars@, i as int) == skip_nonquote_idx(chars@, j as int),
        decreases n - j,
    {
        j = j + 1;
    }
    j
}

/// The first occurrence of `nd` at or after `from`, as [`find_idx`] sees
/// it.
fn find_idx_exec(chars: &Vec<char>, from: usize, nd: &Vec<char>) -> (r: Option<usize>)
    requires
        from <= chars@.len() + 1,
    ensures
        match r {
            Some(i) => find_idx(chars@, from as int, nd@) == i && from <= i && i + nd@.len()
                <= chars@.len() && match_at(chars@, nd@, i as int),
            None => find_idx(chars@, from as int, nd@) == -1,
        },
{
    proof {
        lemma_find_idx_bounds(chars@, from as int, nd@);
    }
    match find_first(chars, from, nd) {
        Some(i) => {
            proof {
                lemma_find_idx_exact(chars@, from as int, nd@, i as int);
            }
            Some(i)
        },
        None => {
            proof {
                if find_idx(chars@, from as int, nd@) >= 0 {
                    assert(match_at(chars@, nd@, find_idx(chars@, from as int, nd@)));
                }
            }
            None
        },
    }
}

/// A first match in the executable sense is `find_idx`.
proof fn lemma_find_idx_exact(s: Seq<char>, from: int, nd: Seq<char>, i: int)
    requires
        0 <= from <= i,
        i + nd.len() <= s.len(),
        match_at(s, nd, i),
        forall|j: int| from <= j < i ==> !match_at(s, nd, j),
    ensures
        find_idx(s, from, nd) == i,
    decreases i - from,
{
    if from < i {
        lemma_find_idx_exact(s, from + 1, nd, i);
    }
}

/// Attempts the full tag shape at position `p`, which holds the opening
/// literal.
#[allow(unused_variables)]
fn match_tag_exec(
    chars: &Vec<char>,
    p: usize,
    open_len: usize,
    attr: &Vec<char>,
    two: bool,
    selfclose: bool,
    close: &Vec<char>,
    Ghost(open): Ghost<Seq<char>>,
    any_value: bool,
) -> (r: Option<(RawTag, usize)>)
    requires
        open.len() == open_len,
        p + open_len <= chars@.len(),
    ensures
        match r {
            Some((tag, next)) => match_tag_at(
                chars@,
                p as int,
                open,
                attr@,
                two,
                selfclose,
                close@,
                any_value,
            ) matches Some(m) && raw_tag_matches(tag, m) && next == m.next,
            None => match_tag_at(
                chars@,
                p as int,
                open,
                attr@,
                two,
                selfclose,
                close@,
                any_value,
            ) is None,
        },
{
    let s_len = chars.len();
    let a = p + open_len;
    let w = skip_ws_exec(chars, a);

    if w <= a {
        return None;
    }
    if attr.len() > s_len - w {
        proof {
            assert(!match_at(chars@, attr@, w as int));
        }
        return None;
    }
    if !crate::text::check_match_at(chars, attr, w) {
        return None;
    }
    let v1s = w + attr.len();
    let v1e = if any_value {
        skip_nonquote_exec(chars, v1s)
    } else {
        skip_digits_exec(chars, v1s)
    };
    if v1e <= v1s {
        return None;
    }
    let v1 = subrange_string(chars, v1s, v1e);
    if two {
        if v1e < s_len && chars[v1e] == '-' {
            let v2s = v1e + 1;
            let v2e = skip_digits_exec(chars, v2s);
            if v2e <= v2s {
                return None;
            }
            let v2 = subrange_string(chars, v2s, v2e);
            match_tail_exec(chars, v1, v2, v2e, selfclose, close)
        } else {
            None
        }
    } else {
        let v2 = v1.clone();
        match_tail_exec(chars, v1, v2, v1e, selfclose, close)
    }
}

/// Attempts the tag tail from position `e`.
fn match_tail_exec(
    chars: &Vec<char>,
    v1: String,
    v2: String,
    e: usize,
    selfclose: bool,
    close: &Vec<char>,
) -> (r: Option<(RawTag, usize)>)
    requires
        e <= chars@.len(),
    ensures
        match r {
            Some((tag, next)) => match_tail_at(
                chars@,
                v1@,
                v2@,
                e as int,
                selfclose,
                close@,
            ) matches Some(m) && raw_tag_matches(tag, m) && next == m.next,
            None => match_tail_at(chars@, v1@, v2@, e as int, selfclose, close@) is None,
        },
{
    let s_len = chars.len();
    if selfclose {
        if e < s_len && chars[e] == '"' {
            let q = skip_ws_exec(chars, e + 1);
            if s_len >= 2 && q <= s_len - 2 && chars[q] == '/' && chars[q + 1] == '>' {
                proof {
                    assert(chars@.subrange(q as int, q + 2) =~= "/>"@) by {
                        reveal_strlit("/>");
                    }
                }
                Some((RawTag { v1, v2, body: String::new() }, q + 2))
            } else {
                proof {
                    reveal_strlit("/>");
                    if match_at(chars@, "/>"@, q as int) {
                        assert(chars@.subrange(q as int, q + 2)[0] == '/');
                        assert(chars@.subrange(q as int, q + 2)[1] == '>');
                    }
                }
                None
            }
        } else {
            None
        }
    } else {
        if s_len >= 2 && e <= s_len - 2 && chars[e] == '"' && chars[e + 1] == '>' {
            proof {
                assert(chars@.subrange(e as int, e + 2) =~= "\">"@) by {
                    reveal_strlit("\">");
                }
            }
            let b0 = e + 2;
            match find_idx_exec(chars, b0, close) {
                Some(c) => {
                    let body = subrange_string(chars, b0, c);
                    Some((RawTag { v1, v2, body }, c + close.len()))
                },
                None => None,
            }
        } else {
            proof {
                reveal_strlit("\">");
                if match_at(chars@, "\">"@, e as int) {
                    assert(chars@.subrange(e as int, e + 2)[0] == '"');
                    assert(chars@.subrange(e as int, e + 2)[1] == '>');
                }
            }
            None
        }
    }
}

/// Every tag of the given shape, scanning the whole text left to right.
fn scan_tags_exec(
    chars: &Vec<char>,
    open: &Vec<char>,
    attr: &Vec<char>,
    two: bool,
    selfclose: bool,
    close: &Vec<char>,
    any_value: bool,
) -> (r: Vec<RawTag>)
    requires
        open@.len() > 0,
    ensures
        ({
            let tags = scan_tags(chars@, 0, open@, attr@, two, selfclose, close@, any_value);
            r@.len() == tags.len() && forall|i: int| 0 <= i < tags.len() ==> raw_tag_matches(
                #[trigger] r@[i],
                tags[i],
            )
        }),
{
    let mut out: Vec<RawTag> = Vec::new();
    let mut from: usize = 0;
    let n = chars.len();
    let ghost whole = scan_tags(chars@, 0, open@, attr@, two, selfclose, close@, any_value);
    loop
        invariant
            open@.len() > 0,
            n == chars@.len(),
            from <= n + 1,
            whole == scan_tags(chars@, 0, open@, attr@, two, selfclose, close@, any_value),
            out@.len() + scan_tags(
                chars@,
                from as int,
                open@,
                attr@,
                two,
                selfclose,
                close@,
                any_value,
            ).len() == whole.len(),
            forall|i: int| 0 <= i < out@.len() ==> raw_tag_matches(#[trigger] out@[i], whole[i]),
            forall|i: int|
                out@.len() <= i < whole.len() ==> whole[i] == scan_tags(
                    chars@,
                    from as int,
                    open@,
                    attr@,
                    two,
                    selfclose,
                    close@,
                    any_value,
                )[i - out@.len()],
        decreases chars@.len() + 1 - from,
    {
        proof {
            lemma_find_idx_bounds(chars@, from as int, open@);
        }
        match find_idx_exec(chars, from, open) {
            Some(p) => {
                proof {
                    lemma_match_tag_next(
                        chars@,
                        p as int,
                        open@,
                        attr@,
                        two,
                        selfclose,
                        close@,
                        any_value,
                    );
                }
                match match_tag_exec(
                    chars,
                    p,
                    open.len(),
                    attr,
                    two,
                    selfclose,
                    close,
                    Ghost(open@),
                    any_value,
                ) {
                    Some((tag, next)) => {
                        out.push(tag);
                        from = next;
                    },
                    None => {
                        proof {
                            assert(p < n);
                        }
                        from = p + 1;
                    },
                }
            },
            None => {
                return out;
            },
        }
    }
}


/// Every character of `d` is a decimal digit.
pub open spec fn all_digits(d: Seq<char>) -> bool {
    forall|i: int| 0 <= i < d.len() ==> is_digit(#[trigger] d[i])
}

/// Everything a digit scan passed over is a digit.
pub proof fn lemma_skip_digits_range(s: Seq<char>, i: int)
    requires
        0 <= i <= s.len(),
    ensures
        forall|j: int| i <= j < skip_digits_idx(s, i) ==> is_digit(#[trigger] s[j]),
    decreases s.len() - i,
{
    if i < s.len() && is_digit(s[i]) {
        lemma_skip_digits_range(s, i + 1);
    } else {
        lemma_skip_bounds(s, i);
    }
}

/// The tags of a digit-valued scan carry digit values, the second equal to
/// the first when the shape has only one.
#[verifier::rlimit(60)]
#[verifier::spinoff_prover]
pub proof fn lemma_scan_digit_values(
    s: Seq<char>,
    from: int,
    open: Seq<char>,
    attr: Seq<char>,
    two: bool,
    selfclose: bool,
    close: Seq<char>,
)
    requires
        0 <= from <= s.len() + 1,
        open.len() > 0,
    ensures
        ({
            let tags = scan_tags(s, from, open, attr, two, selfclose, close, false);
            forall|k: int| 0 <= k < tags.len() ==> all_digits(#[trigger] tags[k].v1)
                && all_digits(tags[k].v2) && tags[k].v1.len() > 0 && tags[k].v2.len() > 0
        }),
    decreases s.len() - from,
{
    lemma_find_idx_bounds(s, from, open);
    let p = find_idx(s, from, open);
    if p >= 0 {
        lemma_match_tag_next(s, p, open, attr, two, selfclose, close, false);
        match match_tag_at(s, p, open, attr, two, selfclose, close, false) {
            Option::Some(m) => {
                let a = p + open.len();
                lemma_skip_bounds(s, a);
                let w = skip_ws_idx(s, a);
                let v1s = w + attr.len();
                lemma_skip_bounds(s, v1s);
                lemma_skip_digits_range(s, v1s);
                let v1e = skip_digits_idx(s, v1s);
                let v1 = s.subrange(v1s, v1e);
                assert(all_digits(v1)) by {
                    assert(forall|j: int| 0 <= j < v1.len() ==> v1[j] == s[v1s + j]);
                }
                if two {
                    lemma_skip_digits_range(s, v1e + 1);
                    lemma_skip_bounds(s, v1e + 1);
                    let v2s = v1e + 1;
                    let v2e = skip_digits_idx(s, v2s);
                    if v1e < s.len() && s[v1e] == '-' && v2e > v2s {
                        let v2 = s.subrange(v2s, v2e);
                        assert(all_digits(v2)) by {
                            assert(forall|j: int| 0 <= j < v2.len() ==> v2[j] == s[v2s + j]);
                        }
                        assert(m.v1 == v1 && m.v2 == v2);
                    }
                } else {
                    assert(m.v1 == v1 && m.v2 == v1);
                }
                assert(all_digits(m.v1) && all_digits(m.v2) && m.v1.len() > 0 && m.v2.len() > 0);
                lemma_scan_digit_values(s, m.next, open, attr, two, selfclose, close);
                let tags = scan_tags(s, from, open, attr, two, selfclose, close, false);
                let rest = scan_tags(s, m.next, open, attr, two, selfclose, close, false);
                assert(tags == seq![m] + rest);
                assert forall|k: int| 0 <= k < tags.len() implies all_digits(
                    #[trigger] tags[k].v1,
                ) && all_digits(tags[k].v2) && tags[k].v1.len() > 0 && tags[k].v2.len() > 0 by {
                    if k == 0 {
                        assert(tags[0] == m);
                    } else {
                        assert(tags[k] == rest[k - 1]);
                        assert(all_digits(rest[k - 1].v1) && all_digits(rest[k - 1].v2) && rest[
                            k - 1].v1.len() > 0 && rest[k - 1].v2.len() > 0);
                    }
                }
            },
            Option::None => {
                lemma_scan_digit_values(s, p + 1, open, attr, two, selfclose, close);
                assert(scan_tags(s, from, open, attr, two, selfclose, close, false) == scan_tags(
                    s,
                    p + 1,
                    open,
                    attr,
                    two,
                    selfclose,
                    close,
                    false,
                ));
            },
        }
    } else {
        assert(scan_tags(s, from, open, attr, two, selfclose, close, false) =~= Seq::<
            TagMatch,
        >::empty());
    }
}

/// The number a digit string denotes.
pub open spec fn digits_val(d: Seq<char>) -> int
    decreases d.len(),
{
    if d.len() == 0 {
        0
    } else {
        digits_val(d.take(d.len() - 1)) * 10 + (d[d.len() - 1] as int - 48)
    }
}

/// A digit string denotes a nonnegative number, and a prefix never denotes
/// more than the whole.
pub proof fn lemma_digits_val_bounds(d: Seq<char>)
    requires
        all_digits(d),
    ensures
        digits_val(d) >= 0,
        forall|k: int| 0 <= k <= d.len() ==> digits_val(#[trigger] d.take(k)) <= digits_val(d),
    decreases d.len(),
{
    if d.len() > 0 {
        let head = d.take(d.len() - 1);
        assert(all_digits(head)) by {
            assert(forall|i: int| 0 <= i < head.len() ==> head[i] == d[i]);
        }
        lemma_digits_val_bounds(head);
        assert(d[d.len() - 1] as int - 48 >= 0);
        assert(forall|k: int| 0 <= k < d.len() ==> d.take(k) =~= head.take(k));
        assert(d.take(d.len() as int) =~= d);
    }
}

/// The value a `u32` can hold of a digit string, or `None` on overflow.
pub open spec fn parse_u32_spec(d: Seq<char>) -> Option<int> {
    if digits_val(d) <= 0xFFFF_FFFF {
        Option::Some(digits_val(d))
    } else {
        Option::None
    }
}

/// The numeric value of one digit character.
fn digit_of(c: char) -> (r: u64)
    requires
        is_digit(c),
    ensures
        r as int == c as int - 48,
{
    match c {
        '0' => 0, '1' => 1, '2' => 2, '3' => 3, '4' => 4,
        '5' => 5, '6' => 6, '7' => 7, '8' => 8, _ => 9,
    }
}

/// Parses a digit string into a `u32`, reporting overflow as `None`.
fn parse_u32(d: &Vec<char>) -> (r: Option<u32>)
    requires
        all_digits(d@),
    ensures
        match r {
            Some(v) => parse_u32_spec(d@) == Option::Some(v as int),
            None => parse_u32_spec(d@) is None,
        },
{
    let mut acc: u64 = 0;
    let mut i: usize = 0;
    let n = d.len();
    proof {
        assert(d@.take(0) =~= Seq::<char>::empty());
    }
    while i < n
        invariant
            all_digits(d@),
            n == d@.len(),
            i <= n,
            acc as int == digits_val(d@.take(i as int)),
            acc <= 0xFFFF_FFFF,
        decreases n - i,
    {
        let dig = digit_of(d[i]);
        let next = acc * 10 + dig;
        proof {
            assert(d@.take(i + 1).take(i as int) =~= d@.take(i as int));
            assert(digits_val(d@.take(i + 1)) == acc as int * 10 + (d@[i as int] as int - 48));
        }
        if next > 0xFFFF_FFFF {
            proof {
                lemma_digits_val_bounds(d@);
                assert(digits_val(d@.take(i + 1)) <= digits_val(d@));
            }
            return None;
        }
        acc = next;
        i = i + 1;
    }
    proof {
        assert(d@.take(n as int) =~= d@);
    }
    Some(acc as u32)
}

/// One modification, abstractly: its kind, line range, and trimmed text.
#[verifier::ext_equal]
pub struct ModRec {
    pub kind: ModificationType,
    pub start: int,
    pub end: int,
    pub text: Option<Seq<char>>,
}

/// Builds the modification records of one tag kind, left to right; an
/// attribute value that overflows the line-number type fails the whole
/// parse with the kind's message.
pub open spec fn build_kind(
    tags: Seq<TagMatch>,
    kind: ModificationType,
    with_text: bool,
    err1: Seq<char>,
    err2: Seq<char>,
) -> Result<Seq<ModRec>, Seq<char>>
    decreases tags.len(),
{
    if tags.len() == 0 {
        Result::Ok(Seq::empty())
    } else {
        let t = tags[0];
        match parse_u32_spec(t.v1) {
            Option::None => Result::Err(err1),
            Option::Some(a) => match parse_u32_spec(t.v2) {
                Option::None => Result::Err(err2),
                Option::Some(b) => {
                    let rec = ModRec {
                        kind,
                        start: a,
                        end: b,
                        text: if with_text {
                            Option::Some(trim_spec(t.body))
                        } else {
                            Option::None
                        },
                    };
                    match build_kind(tags.skip(1), kind, with_text, err1, err2) {
                        Result::Ok(rest) => Result::Ok(seq![rec] + rest),
                        Result::Err(e) => Result::Err(e),
                    }
                },
            },
        }
    }
}

/// Extending a successfully built prefix by one parsable tag appends its
/// record.
proof fn lemma_build_take_ok(
    tags: Seq<TagMatch>,
    kind: ModificationType,
    with_text: bool,
    err1: Seq<char>,
    err2: Seq<char>,
    i: int,
)
    requires
        0 < i <= tags.len(),
    ensures
        ({
            let prefix = build_kind(tags.take(i - 1), kind, with_text, err1, err2);
            match prefix {
                Result::Ok(rs) => {
                    let t = tags[i - 1];
                    match parse_u32_spec(t.v1) {
                        Option::Some(a) => match parse_u32_spec(t.v2) {
                            Option::Some(b) => build_kind(
                                tags.take(i),
                                kind,
                                with_text,
                                err1,
                                err2,
                            ) == Result::<Seq<ModRec>, Seq<char>>::Ok(
                                rs.push(
                                    ModRec {
                                        kind,
                                        start: a,
                                        end: b,
                                        text: if with_text {
                                            Option::Some(trim_spec(t.body))
                                        } else {
                                            Option::None
                                        },
                                    },
                                ),
                            ),
                            Option::None => build_kind(tags.take(i), kind, with_text, err1, err2)
                                == Result::<Seq<ModRec>, Seq<char>>::Err(err2),
                        },
                        Option::None => build_kind(tags.take(i), kind, with_text, err1, err2)
                            == Result::<Seq<ModRec>, Seq<char>>::Err(err1),
                    }
                },
                Result::Err(_) => true,
            }
        }),
    decreases i,
{
    if i == 1 {
        let t1 = tags.take(1);
        assert(t1[0] == tags[0]);
        assert(t1.skip(1) =~= Seq::<TagMatch>::empty());
        assert(tags.take(0) =~= Seq::<TagMatch>::empty());
        match parse_u32_spec(tags[0].v1) {
            Option::Some(a) => match parse_u32_spec(tags[0].v2) {
                Option::Some(b) => {
                    assert(build_kind(t1.skip(1), kind, with_text, err1, err2) == Result::<
                        Seq<ModRec>,
                        Seq<char>,
                    >::Ok(Seq::empty()));
                    let rec = ModRec {
                        kind,
                        start: a,
                        end: b,
                        text: if with_text {
                            Option::Some(trim_spec(tags[0].body))
                        } else {
                            Option::None
                        },
                    };
                    assert(seq![rec] + Seq::<ModRec>::empty() =~= Seq::<ModRec>::empty().push(
                        rec,
                    ));
                },
                Option::None => {},
            },
            Option::None => {},
        }
    } else {
        let head = tags[0];
        let rest = tags.skip(1);
        assert(tags.take(i - 1)[0] == head);
        assert(tags.take(i)[0] == head);
        assert(tags.take(i - 1).skip(1) =~= rest.take(i - 2));
        assert(tags.take(i).skip(1) =~= rest.take(i - 1));
        assert(rest[i - 2] == tags[i - 1]);
        match parse_u32_spec(head.v1) {
            Option::Some(a0) => match parse_u32_spec(head.v2) {
                Option::Some(b0) => {
                    lemma_build_take_ok(rest, kind, with_text, err1, err2, i - 1);
                    let rec0 = ModRec {
                        kind,
                        start: a0,
                        end: b0,
                        text: if with_text {
                            Option::Some(trim_spec(head.body))
                        } else {
                            Option::None
                        },
                    };
                    match build_kind(rest.take(i - 2), kind, with_text, err1, err2) {
                        Result::Ok(rs0) => {
                            let t = tags[i - 1];
                            match parse_u32_spec(t.v1) {
                                Option::Some(a) => match parse_u32_spec(t.v2) {
                                    Option::Some(b) => {
                                        let rec = ModRec {
                                            kind,
                                            start: a,
                                            end: b,
                                            text: if with_text {
                                                Option::Some(trim_spec(t.body))
                                            } else {
                                                Option::None
                                            },
                                        };
                                        assert(seq![rec0] + rs0.push(rec) =~= (seq![rec0]
                                            + rs0).push(rec));
                                    },
                                    Option::None => {},
                                },
                                Option::None => {},
                            }
                        },
                        Result::Err(_) => {},
                    }
                },
                Option::None => {},
            },
            Option::None => {},
        }
    }
}

/// A failed prefix fails the whole build with the same message.
proof fn lemma_build_prefix_err(
    tags: Seq<TagMatch>,
    kind: ModificationType,
    with_text: bool,
    err1: Seq<char>,
    err2: Seq<char>,
    i: int,
    e: Seq<char>,
)
    requires
        0 <= i <= tags.len(),
        build_kind(tags.take(i), kind, with_text, err1, err2) == Result::<
            Seq<ModRec>,
            Seq<char>,
        >::Err(e),
    ensures
        build_kind(tags, kind, with_text, err1, err2) == Result::<Seq<ModRec>, Seq<char>>::Err(e),
    decreases i,
{
    if i == 0 {
        assert(tags.take(0) =~= Seq::<TagMatch>::empty());
        assert(false);
    } else {
        let head = tags[0];
        assert(tags.take(i)[0] == head);
        assert(tags.take(i).skip(1) =~= tags.skip(1).take(i - 1));
        match parse_u32_spec(head.v1) {
            Option::Some(_) => match parse_u32_spec(head.v2) {
                Option::Some(_) => {
                    match build_kind(tags.skip(1).take(i - 1), kind, with_text, err1, err2) {
                        Result::Err(e2) => {
                            lemma_build_prefix_err(
                                tags.skip(1),
                                kind,
                                with_text,
                                err1,
                                err2,
                                i - 1,
                                e2,
                            );
                        },
                        Result::Ok(_) => {
                            assert(false);
                        },
                    }
                },
                Option::None => {},
            },
            Option::None => {},
        }
    }
}

/// The replace tags of a reply body.
pub open spec fn replace_tags(s: Seq<char>) -> Seq<TagMatch> {
    scan_tags(s, 0, "<replace"@, "lines=\""@, true, false, "</replace>"@, false)
}

/// The insert tags of a reply body.
pub open spec fn insert_tags(s: Seq<char>) -> Seq<TagMatch> {
    scan_tags(s, 0, "<insert"@, "at=\""@, false, false, "</insert>"@, false)
}

/// The delete tags of a reply body.
pub open spec fn delete_tags(s: Seq<char>) -> Seq<TagMatch> {
    scan_tags(s, 0, "<delete"@, "lines=\""@, true, true, Seq::empty(), false)
}

/// What the whole body parses to: replace records, then insert records,
/// then delete records, or the first number-overflow message.
pub open spec fn mods_spec(s: Seq<char>) -> Result<Seq<ModRec>, Seq<char>> {
    match build_kind(
        replace_tags(s),
        ModificationType::Modify,
        true,
        "Invalid line start: number too large to fit in target type"@,
        "Invalid line end: number too large to fit in target type"@,
    ) {
        Result::Err(e) => Result::Err(e),
        Result::Ok(a) => match build_kind(
            insert_tags(s),
            ModificationType::Add,
            true,
            "Invalid line position: number too large to fit in target type"@,
            "Invalid line position: number too large to fit in target type"@,
        ) {
            Result::Err(e) => Result::Err(e),
            Result::Ok(b) => match build_kind(
                delete_tags(s),
                ModificationType::Delete,
                false,
                "Invalid line start: number too large to fit in target type"@,
                "Invalid line end: number too large to fit in target type"@,
            ) {
                Result::Err(e) => Result::Err(e),
                Result::Ok(c) => Result::Ok(a + b + c),
            },
        },
    }
}

/// Every modification's identifier is stamped with the one time `m` and its
/// own position.
pub open spec fn mods_have_ids(v: Seq<Modification>, m: int) -> bool {
    forall|i: int| 0 <= i < v.len() ==> (#[trigger] v[i]).id@ == mod_id_seq(m, i)
}

/// The built modifications carry exactly the parsed records, in order, each
/// stamped with one common time and its own position.
pub open spec fn mods_match_recs(v: Seq<Modification>, recs: Seq<ModRec>) -> bool {
    &&& v.len() == recs.len()
    &&& (forall|i: int| 0 <= i < recs.len() ==> mod_matches_rec(#[trigger] v[i], recs[i]))
    &&& (exists|m: int| mods_have_ids(v, m))
}

/// A built modification carries the fields of its record; only its
/// identifier depends on the clock.
pub open spec fn mod_matches_rec(m: Modification, rec: ModRec) -> bool {
    &&& m.mod_type == rec.kind
    &&& m.line_start == rec.start
    &&& m.line_end == rec.end
    &&& m.original_text is None
    &&& (match rec.text {
        Option::Some(t) => m.modified_text matches Some(mt) && mt@ == t,
        Option::None => m.modified_text is None,
    })
    &&& m.status is Pending
}

/// Builds the modifications of one scanned tag kind onto `out`, giving each
/// its position-stamped identifier.
#[allow(unused_variables)]
fn build_kind_exec(
    out: &mut Vec<Modification>,
    tags: &Vec<RawTag>,
    Ghost(spec_tags): Ghost<Seq<TagMatch>>,
    kind_is_add: bool,
    kind_is_delete: bool,
    millis: i64,
    err1: &str,
    err2: &str,
    Ghost(done): Ghost<Seq<ModRec>>,
) -> (r: Result<(), String>)
    requires
        tags@.len() == spec_tags.len(),
        forall|i: int| 0 <= i < spec_tags.len() ==> raw_tag_matches(#[trigger] tags@[i], spec_tags[i])
            && all_digits(spec_tags[i].v1) && all_digits(spec_tags[i].v2),
        old(out)@.len() == done.len(),
        forall|i: int| 0 <= i < done.len() ==> mod_matches_rec(#[trigger] old(out)@[i], done[i])
            && old(out)@[i].id@ == mod_id_seq(millis as int, i),
    ensures
        ({
            let kind = if kind_is_add {
                ModificationType::Add
            } else if kind_is_delete {
                ModificationType::Delete
            } else {
                ModificationType::Modify
            };
            match build_kind(spec_tags, kind, !kind_is_delete, err1@, err2@) {
                Result::Ok(recs) => r is Ok && final(out)@.len() == done.len() + recs.len()
                    && (forall|i: int| 0 <= i < done.len() + recs.len() ==> mod_matches_rec(
                    #[trigger] final(out)@[i],
                    (done + recs)[i],
                ) && final(out)@[i].id@ == mod_id_seq(millis as int, i)),
                Result::Err(e) => r matches Err(m) && m@ == e,
            }
        }),
{
    let ghost kind = if kind_is_add {
        ModificationType::Add
    } else if kind_is_delete {
        ModificationType::Delete
    } else {
        ModificationType::Modify
    };
    let ghost with_text = !kind_is_delete;
    let mut i: usize = 0;
    proof {
        assert(spec_tags.take(0) =~= Seq::<TagMatch>::empty());
        assert(done + Seq::<ModRec>::empty() =~= done);
    }
    while i < tags.len()
        invariant
            tags@.len() == spec_tags.len(),
            forall|k: int| 0 <= k < spec_tags.len() ==> raw_tag_matches(
                #[trigger] tags@[k],
                spec_tags[k],
            ) && all_digits(spec_tags[k].v1) && all_digits(spec_tags[k].v2),
            i <= tags@.len(),
            kind == (if kind_is_add {
                ModificationType::Add
            } else if kind_is_delete {
                ModificationType::Delete
            } else {
                ModificationType::Modify
            }),
            with_text == !kind_is_delete,
            build_kind(spec_tags.take(i as int), kind, with_text, err1@, err2@) matches Ok(recs)
                && out@.len() == done.len() + recs.len() && (forall|k: int|
                0 <= k < out@.len() ==> mod_matches_rec(#[trigger] out@[k], (done + recs)[k])
                    && out@[k].id@ == mod_id_seq(millis as int, k)),
        decreases tags@.len() - i,
    {
        let ghost recs_before = build_kind(
            spec_tags.take(i as int),
            kind,
            with_text,
            err1@,
            err2@,
        )->Ok_0;
        let tag = &tags[i];
        let v1 = chars_of(tag.v1.as_str());
        let v2 = chars_of(tag.v2.as_str());
        proof {
            lemma_build_take_ok(spec_tags, kind, with_text, err1@, err2@, i + 1);
        }
        let a = match parse_u32(&v1) {
            Some(a) => a,
            None => {
                proof {
                    lemma_build_prefix_err(
                        spec_tags,
                        kind,
                        with_text,
                        err1@,
                        err2@,
                        i + 1,
                        err1@,
                    );
                }
                return Err(String::from_str(err1));
            },
        };
        let b = match parse_u32(&v2) {
            Some(b) => b,
            None => {
                proof {
                    lemma_build_prefix_err(
                        spec_tags,
                        kind,
                        with_text,
                        err1@,
                        err2@,
                        i + 1,
                        err2@,
                    );
                }
                return Err(String::from_str(err2));
            },
        };
        let text = if kind_is_delete {
            None
        } else {
            let body_chars = chars_of(tag.body.as_str());
            let trimmed = trim_chars(&body_chars);
            Some(string_of(&trimmed))
        };
        let kind_exec = if kind_is_add {
            ModificationType::Add
        } else if kind_is_delete {
            ModificationType::Delete
        } else {
            ModificationType::Modify
        };
        let idx = out.len();
        let m = Modification {
            id: make_mod_id(millis, idx),
            mod_type: kind_exec,
            line_start: a,
            line_end: b,
            original_text: None,
            modified_text: text,
            status: ModificationStatus::Pending,
        };
        out.push(m);
        i = i + 1;
        proof {
            let rec = ModRec {
                kind,
                start: a as int,
                end: b as int,
                text: if with_text {
                    Option::Some(trim_spec(spec_tags[i - 1].body))
                } else {
                    Option::None
                },
            };
            assert(done + recs_before.push(rec) =~= (done + recs_before).push(rec));
        }
    }
    proof {
        assert(spec_tags.take(spec_tags.len() as int) =~= spec_tags);
    }
    Ok(())
}

/// Parses the modification tags of a reply body: every replace, then every
/// insert, then every delete, in text order within each kind, each stamped
/// pending with a fresh identifier. A line number too large for its type
/// fails the parse.
#[verifier::rlimit(60)]
#[verifier::spinoff_prover]
pub fn parse_modifications(edit_content: &str) -> (r: Result<Vec<Modification>, String>)
    ensures
        match mods_spec(edit_content@) {
            Result::Ok(recs) => r matches Ok(v) && mods_match_recs(v@, recs),
            Result::Err(e) => r matches Err(m) && m@ == e,
        },
{
    let s = chars_of(edit_content);
    let millis = now_unix_millis();
    let mut out: Vec<Modification> = Vec::new();

    let open_r = chars_of("<replace");
    let attr_lines = chars_of("lines=\"");
    let close_r = chars_of("</replace>");
    proof {
        reveal_strlit("<replace");
        assert(open_r@.len() > 0);
        assert(s@ == edit_content@);
    }
    let tags_r = scan_tags_exec(&s, &open_r, &attr_lines, true, false, &close_r, false);
    proof {
        lemma_scan_digit_values(s@, 0, "<replace"@, "lines=\""@, true, false, "</replace>"@);
    }
    let res_r = build_kind_exec(
        &mut out,
        &tags_r,
        Ghost(replace_tags(edit_content@)),
        false,
        false,
        millis,
        "Invalid line start: number too large to fit in target type",
        "Invalid line end: number too large to fit in target type",
        Ghost(Seq::empty()),
    );
    match res_r {
        Err(m) => {
            return Err(m);
        },
        Ok(()) => {},
    }
    let ghost recs_a = build_kind(
        replace_tags(edit_content@),
        ModificationType::Modify,
        true,
        "Invalid line start: number too large to fit in target type"@,
        "Invalid line end: number too large to fit in target type"@,
    )->Ok_0;

    let open_i = chars_of("<insert");
    let attr_at = chars_of("at=\"");
    let close_i = chars_of("</insert>");
    proof {
        reveal_strlit("<insert");
        assert(open_i@.len() > 0);
    }
    let tags_i = scan_tags_exec(&s, &open_i, &attr_at, false, false, &close_i, false);
    proof {
        lemma_scan_digit_values(s@, 0, "<insert"@, "at=\""@, false, false, "</insert>"@);
    }
    let res_i = build_kind_exec(
        &mut out,
        &tags_i,
        Ghost(insert_tags(edit_content@)),
        true,
        false,
        millis,
        "Invalid line position: number too large to fit in target type",
        "Invalid line position: number too large to fit in target type",
        Ghost(recs_a),
    );
    match res_i {
        Err(m) => {
            return Err(m);
        },
        Ok(()) => {},
    }
    let ghost recs_b = build_kind(
        insert_tags(edit_content@),
        ModificationType::Add,
        true,
        "Invalid line position: number too large to fit in target type"@,
        "Invalid line position: number too large to fit in target type"@,
    )->Ok_0;

    let open_d = chars_of("<delete");
    let empty_close: Vec<char> = Vec::new();
    proof {
        reveal_strlit("<delete");
        assert(open_d@.len() > 0);
        assert(empty_close@ =~= Seq::<char>::empty());
    }
    let tags_d = scan_tags_exec(&s, &open_d, &attr_lines, true, true, &empty_close, false);
    proof {
        lemma_scan_digit_values(s@, 0, "<delete"@, "lines=\""@, true, true, Seq::empty());
    }
    let res_d = build_kind_exec(
        &mut out,
        &tags_d,
        Ghost(delete_tags(edit_content@)),
        false,
        true,
        millis,
        "Invalid line start: number too large to fit in target type",
        "Invalid line end: number too large to fit in target type",
        Ghost(recs_a + recs_b),
    );
    match res_d {
        Err(m) => {
            return Err(m);
        },
        Ok(()) => {},
    }
    proof {
        let recs_c = build_kind(
            delete_tags(edit_content@),
            ModificationType::Delete,
            false,
            "Invalid line start: number too large to fit in target type"@,
            "Invalid line end: number too large to fit in target type"@,
        )->Ok_0;
        assert((recs_a + recs_b) + recs_c =~= recs_a + recs_b + recs_c);
        let total = recs_a + recs_b + recs_c;
        assert(mods_spec(edit_content@) == Result::<Seq<ModRec>, Seq<char>>::Ok(total));
        assert(out@.len() == total.len());
        assert(forall|i: int| 0 <= i < total.len() ==> mod_matches_rec(
            #[trigger] out@[i],
            total[i],
        ));
        assert(mods_have_ids(out@, millis as int));
        assert(mods_match_recs(out@, total));
    }
    Ok(out)
}


/// The file-edit blocks of a whole reply: each carries its workspace path
/// and its body of modification tags.
pub open spec fn file_edit_blocks(s: Seq<char>) -> Seq<TagMatch> {
    scan_tags(s, 0, "<file_edit"@, "path=\""@, false, false, "</file_edit>"@, true)
}

/// The content recorded for `path`, if any: the first pair that names it.
pub open spec fn lookup_content(originals: Seq<(String, String)>, path: Seq<char>) -> Option<
    Seq<char>,
>
    decreases originals.len(),
{
    if originals.len() == 0 {
        Option::None
    } else if originals[0].0@ == path {
        Option::Some(originals[0].1@)
    } else {
        lookup_content(originals.skip(1), path)
    }
}

/// Finds the recorded content of `path`.
fn lookup_content_exec(originals: &Vec<(String, String)>, path: &str) -> (r: Option<String>)
    ensures
        match r {
            Some(c) => lookup_content(originals@, path@) == Option::Some(c@),
            None => lookup_content(originals@, path@) is None,
        },
{
    let mut i: usize = 0;
    proof {
        assert(originals@.skip(0) =~= originals@);
    }
    while i < originals.len()
        invariant
            i <= originals@.len(),
            lookup_content(originals@, path@) == lookup_content(
                originals@.skip(i as int),
                path@,
            ),
        decreases originals@.len() - i,
    {
        proof {
            assert(originals@.skip(i as int)[0] == originals@[i as int]);
            assert(originals@.skip(i as int).skip(1) =~= originals@.skip(i + 1));
        }
        if crate::text::str_eq(originals[i].0.as_str(), path) {
            return Some(originals[i].1.clone());
        }
        i = i + 1;
    }
    proof {
        assert(originals@.skip(originals@.len() as int) =~= Seq::<(String, String)>::empty());
    }
    None
}

/// One file of a change set, abstractly.
#[verifier::ext_equal]
pub struct FileRec {
    pub path: Seq<char>,
    pub content: Seq<char>,
    pub mods: Seq<ModRec>,
}

/// Gathers the files of a change set from the reply's blocks, in order. A
/// path without recorded content, or a body whose numbers overflow, fails
/// the whole parse; a block without modifications is dropped.
pub open spec fn gather_files(blocks: Seq<TagMatch>, originals: Seq<(String, String)>) -> Result<
    Seq<FileRec>,
    Seq<char>,
>
    decreases blocks.len(),
{
    if blocks.len() == 0 {
        Result::Ok(Seq::empty())
    } else {
        let b = blocks[0];
        match lookup_content(originals, b.v1) {
            Option::None => Result::Err("Failed to read file "@ + b.v1),
            Option::Some(content) => match mods_spec(b.body) {
                Result::Err(e) => Result::Err(e),
                Result::Ok(recs) => match gather_files(blocks.skip(1), originals) {
                    Result::Err(e) => Result::Err(e),
                    Result::Ok(rest) => if recs.len() > 0 {
                        Result::Ok(
                            seq![FileRec { path: b.v1, content, mods: recs }] + rest,
                        )
                    } else {
                        Result::Ok(rest)
                    },
                },
            },
        }
    }
}

/// Extending a successfully gathered prefix by one good block appends its
/// file, or drops it when it has no modifications.
proof fn lemma_gather_take_ok(blocks: Seq<TagMatch>, originals: Seq<(String, String)>, i: int)
    requires
        0 < i <= blocks.len(),
    ensures
        ({
            let prefix = gather_files(blocks.take(i - 1), originals);
            match prefix {
                Result::Ok(rs) => {
                    let b = blocks[i - 1];
                    match lookup_content(originals, b.v1) {
                        Option::Some(content) => match mods_spec(b.body) {
                            Result::Ok(recs) => gather_files(blocks.take(i), originals)
                                == Result::<Seq<FileRec>, Seq<char>>::Ok(
                                if recs.len() > 0 {
                                    rs.push(FileRec { path: b.v1, content, mods: recs })
                                } else {
                                    rs
                                },
                            ),
                            Result::Err(e) => gather_files(blocks.take(i), originals)
                                == Result::<Seq<FileRec>, Seq<char>>::Err(e),
                        },
                        Option::None => gather_files(blocks.take(i), originals) == Result::<
                            Seq<FileRec>,
                            Seq<char>,
                        >::Err("Failed to read file "@ + b.v1),
                    }
                },
                Result::Err(_) => true,
            }
        }),
    decreases i,
{
    if i == 1 {
        let t1 = blocks.take(1);
        assert(t1[0] == blocks[0]);
        assert(t1.skip(1) =~= Seq::<TagMatch>::empty());
        assert(blocks.take(0) =~= Seq::<TagMatch>::empty());
        let b = blocks[0];
        match lookup_content(originals, b.v1) {
            Option::Some(content) => match mods_spec(b.body) {
                Result::Ok(recs) => {
                    if recs.len() > 0 {
                        assert(seq![FileRec { path: b.v1, content, mods: recs }] + Seq::<
                            FileRec,
                        >::empty() =~= Seq::<FileRec>::empty().push(
                            FileRec { path: b.v1, content, mods: recs },
                        ));
                    }
                },
                Result::Err(_) => {},
            },
            Option::None => {},
        }
    } else {
        let head = blocks[0];
        let rest = blocks.skip(1);
        assert(blocks.take(i - 1)[0] == head);
        assert(blocks.take(i)[0] == head);
        assert(blocks.take(i - 1).skip(1) =~= rest.take(i - 2));
        assert(blocks.take(i).skip(1) =~= rest.take(i - 1));
        assert(rest[i - 2] == blocks[i - 1]);
        match lookup_content(originals, head.v1) {
            Option::Some(content0) => match mods_spec(head.body) {
                Result::Ok(recs0) => {
                    lemma_gather_take_ok(rest, originals, i - 1);
                    match gather_files(rest.take(i - 2), originals) {
                        Result::Ok(rs0) => {
                            let b = blocks[i - 1];
                            match lookup_content(originals, b.v1) {
                                Option::Some(content) => match mods_spec(b.body) {
                                    Result::Ok(recs) => {
                                        if recs0.len() > 0 {
                                            let f0 = FileRec {
                                                path: head.v1,
                                                content: content0,
                                                mods: recs0,
                                            };
                                            if recs.len() > 0 {
                                                let f = FileRec {
                                                    path: b.v1,
                                                    content,
                                                    mods: recs,
                                                };
                                                assert(seq![f0] + rs0.push(f) =~= (seq![f0]
                                                    + rs0).push(f));
                                            }
                                        }
                                    },
                                    Result::Err(_) => {},
                                },
                                Option::None => {},
                            }
                        },
                        Result::Err(_) => {},
                    }
                },
                Result::Err(_) => {},
            },
            Option::None => {},
        }
    }
}

/// A failed gathered prefix fails the whole gather with the same message.
proof fn lemma_gather_prefix_err(
    blocks: Seq<TagMatch>,
    originals: Seq<(String, String)>,
    i: int,
    e: Seq<char>,
)
    requires
        0 <= i <= blocks.len(),
        gather_files(blocks.take(i), originals) == Result::<Seq<FileRec>, Seq<char>>::Err(e),
    ensures
        gather_files(blocks, originals) == Result::<Seq<FileRec>, Seq<char>>::Err(e),
    decreases i,
{
    if i == 0 {
        assert(blocks.take(0) =~= Seq::<TagMatch>::empty());
        assert(false);
    } else {
        let head = blocks[0];
        assert(blocks.take(i)[0] == head);
        assert(blocks.take(i).skip(1) =~= blocks.skip(1).take(i - 1));
        match lookup_content(originals, head.v1) {
            Option::Some(_) => match mods_spec(head.body) {
                Result::Ok(_) => {
                    match gather_files(blocks.skip(1).take(i - 1), originals) {
                        Result::Err(e2) => {
                            lemma_gather_prefix_err(blocks.skip(1), originals, i - 1, e2);
                        },
                        Result::Ok(_) => {
                            assert(false);
                        },
                    }
                },
                Result::Err(_) => {},
            },
            Option::None => {},
        }
    }
}

/// The workspace paths named by the reply's file-edit blocks, in order, for
/// the caller to read before parsing.
pub fn extract_file_edit_paths(response: &str) -> (r: Vec<String>)
    ensures
        ({
            let blocks = file_edit_blocks(response@);
            r@.len() == blocks.len() && forall|i: int| 0 <= i < blocks.len()
                ==> (#[trigger] r@[i])@ == blocks[i].v1
        }),
{
    let s = chars_of(response);
    let open = chars_of("<file_edit");
    let attr = chars_of("path=\"");
    let close = chars_of("</file_edit>");
    proof {
        reveal_strlit("<file_edit");
        assert(open@.len() > 0);
    }
    let tags = scan_tags_exec(&s, &open, &attr, false, false, &close, true);
    let mut out: Vec<String> = Vec::new();
    let mut i: usize = 0;
    while i < tags.len()
        invariant
            tags@.len() == file_edit_blocks(response@).len(),
            forall|k: int| 0 <= k < tags@.len() ==> raw_tag_matches(
                #[trigger] tags@[k],
                file_edit_blocks(response@)[k],
            ),
            i <= tags@.len(),
            out@.len() == i,
            forall|k: int| 0 <= k < i ==> (#[trigger] out@[k])@ == file_edit_blocks(response@)[
                k].v1,
        decreases tags@.len() - i,
    {
        out.push(tags[i].v1.clone());
        i = i + 1;
    }
    out
}

/// A built file carries its record's path, content and modifications.
pub open spec fn file_matches_rec(f: FileModification, rec: FileRec) -> bool {
    &&& f.file_path@ == rec.path
    &&& f.original_content@ == rec.content
    &&& mods_match_recs(f.modifications@, rec.mods)
    &&& f.status is Pending
}

/// Extracts the change set a reply asks for, if any. `originals` records
/// the current content of each workspace path the reply names (see
/// [`extract_file_edit_paths`]); a named path without recorded content is a
/// read failure. A reply without file-edit blocks, or whose blocks hold no
/// modifications, asks for nothing.
pub fn parse_ai_response(response: &str, originals: &Vec<(String, String)>) -> (r: Result<
    Option<ChangeSet>,
    String,
>)
    ensures
        !contains_seq(response@, "<file_edit"@) ==> (r matches Ok(o) && o is None),
        contains_seq(response@, "<file_edit"@) ==> match gather_files(
            file_edit_blocks(response@),
            originals@,
        ) {
            Result::Ok(frecs) => {
                if frecs.len() == 0 {
                    (r matches Ok(o) && o is None)
                } else {
                    r matches Ok(o) && (o matches Some(cs) && cs.files@.len() == frecs.len() && (
                    forall|i: int| 0 <= i < frecs.len() ==> file_matches_rec(
                        #[trigger] cs.files@[i],
                        frecs[i],
                    )) && cs.status is Pending && crate::text::starts_with_spec(
                        cs.id@,
                        "changeset-"@,
                    ))
                }
            },
            Result::Err(e) => r matches Err(m) && m@ == e,
        },
{
    if !str_contains(response, "<file_edit") {
        return Ok(None);
    }
    let s = chars_of(response);
    let open = chars_of("<file_edit");
    let attr = chars_of("path=\"");
    let close = chars_of("</file_edit>");
    proof {
        reveal_strlit("<file_edit");
        assert(open@.len() > 0);
    }
    let tags = scan_tags_exec(&s, &open, &attr, false, false, &close, true);
    let ghost blocks = file_edit_blocks(response@);
    let mut files: Vec<FileModification> = Vec::new();
    let mut i: usize = 0;
    proof {
        assert(blocks.take(0) =~= Seq::<TagMatch>::empty());
    }
    while i < tags.len()
        invariant
            contains_seq(response@, "<file_edit"@),
            blocks == file_edit_blocks(response@),
            tags@.len() == blocks.len(),
            forall|k: int| 0 <= k < blocks.len() ==> raw_tag_matches(
                #[trigger] tags@[k],
                blocks[k],
            ),
            i <= blocks.len(),
            (gather_files(blocks.take(i as int), originals@) matches Ok(rs) && files@.len()
                == rs.len() && (forall|k: int| 0 <= k < files@.len() ==> file_matches_rec(
                #[trigger] files@[k],
                rs[k],
            ))),
        decreases tags@.len() - i,
    {
        let tag = &tags[i];
        proof {
            lemma_gather_take_ok(blocks, originals@, i + 1);
        }
        let content = match lookup_content_exec(originals, tag.v1.as_str()) {
            Some(c) => c,
            None => {
                let mut m = String::new();
                crate::text::append_str(&mut m, "Failed to read file ");
                crate::text::append_str(&mut m, tag.v1.as_str());
                proof {
                    assert(m@ =~= "Failed to read file "@ + blocks[i as int].v1);
                    lemma_gather_prefix_err(
                        blocks,
                        originals@,
                        i + 1,
                        "Failed to read file "@ + blocks[i as int].v1,
                    );
                }
                return Err(m);
            },
        };
        let mods = match parse_modifications(tag.body.as_str()) {
            Ok(v) => v,
            Err(m) => {
                proof {
                    lemma_gather_prefix_err(blocks, originals@, i + 1, m@);
                }
                return Err(m);
            },
        };
        if mods.len() > 0 {
            let f = FileModification {
                file_path: tag.v1.clone(),
                original_content: content,
                modifications: mods,
                status: FileModificationStatus::Pending,
            };
            files.push(f);
        }
        i = i + 1;
    }
    proof {
        assert(blocks.take(blocks.len() as int) =~= blocks);
    }
    if files.len() == 0 {
        return Ok(None);
    }
    let ghost files_snapshot = files@;
    let cs = ChangeSet::new(files);
    proof {
        assert(cs.files@ == files_snapshot);
    }
    Ok(Some(cs))
}

}
