//! Character-level text utilities shared by the whole library.
//!
//! Everything here is executable code proved against character-sequence
//! specifications; no outside crate is involved.
use vstd::prelude::*;

verus! {

/// The Unicode `White_Space` code points, as `char::is_whitespace` reports them.
pub open spec fn is_ws(c: char) -> bool {
    c == ' ' || c == '\t' || c == '\n' || c == '\r' || c == '\u{b}' || c == '\u{c}'
        || c == '\u{85}' || c == '\u{a0}' || c == '\u{1680}' || c == '\u{2000}'
        || c == '\u{2001}' || c == '\u{2002}' || c == '\u{2003}' || c == '\u{2004}'
        || c == '\u{2005}' || c == '\u{2006}' || c == '\u{2007}' || c == '\u{2008}'
        || c == '\u{2009}' || c == '\u{200a}' || c == '\u{2028}' || c == '\u{2029}'
        || c == '\u{202f}' || c == '\u{205f}' || c == '\u{3000}'
}

/// Executable test for [`is_ws`].
pub fn is_ws_char(c: char) -> (r: bool)
    ensures
        r == is_ws(c),
{
    c == ' ' || c == '\t' || c == '\n' || c == '\r' || c == '\u{b}' || c == '\u{c}'
        || c == '\u{85}' || c == '\u{a0}' || c == '\u{1680}' || c == '\u{2000}'
        || c == '\u{2001}' || c == '\u{2002}' || c == '\u{2003}' || c == '\u{2004}'
        || c == '\u{2005}' || c == '\u{2006}' || c == '\u{2007}' || c == '\u{2008}'
        || c == '\u{2009}' || c == '\u{200a}' || c == '\u{2028}' || c == '\u{2029}'
        || c == '\u{202f}' || c == '\u{205f}' || c == '\u{3000}'
}

/// The characters of `s`, in order, as a vector.
pub fn chars_of(s: &str) -> (r: Vec<char>)
    ensures
        r@ == s@,
{
    let n = s.unicode_len();
    let mut out: Vec<char> = Vec::new();
    let mut i: usize = 0;
    while i < n
        invariant
            n == s@.len(),
            i <= n,
            out@ == s@.take(i as int),
        decreases n - i,
    {
        out.push(s.get_char(i));
        i = i + 1;
        proof {
            assert(out@ =~= s@.take(i as int));
        }
    }
    proof {
        assert(out@ =~= s@);
    }
    out
}

/// Relies on `String::push`: appends one character to the string.
#[verifier::external_body]
pub fn push_char(s: &mut String, c: char)
    ensures
        final(s)@ == old(s)@.push(c),
{
    s.push(c)
}

/// A `String` holding exactly the characters of `v`.
pub fn string_of(v: &Vec<char>) -> (r: String)
    ensures
        r@ == v@,
{
    let mut out = String::new();
    let mut i: usize = 0;
    while i < v.len()
        invariant
            i <= v@.len(),
            out@ == v@.take(i as int),
        decreases v@.len() - i,
    {
        push_char(&mut out, v[i]);
        i = i + 1;
        proof {
            assert(out@ =~= v@.take(i as int));
        }
    }
    proof {
        assert(out@ =~= v@);
    }
    out
}

/// `nd` occurs in `h` starting at position `i`.
pub open spec fn match_at(h: Seq<char>, nd: Seq<char>, i: int) -> bool {
    0 <= i && i + nd.len() <= h.len() && h.subrange(i, i + nd.len() as int) == nd
}

/// `nd` occurs somewhere in `h`.
pub open spec fn contains_seq(h: Seq<char>, nd: Seq<char>) -> bool {
    exists|i: int| match_at(h, nd, i)
}

/// Whether `nd` occurs in `h` at exactly position `i`.
pub fn check_match_at(h: &Vec<char>, nd: &Vec<char>, i: usize) -> (r: bool)
    requires
        i + nd@.len() <= h@.len(),
    ensures
        r == match_at(h@, nd@, i as int),
{
    let hn = h.len();
    let mut j: usize = 0;
    while j < nd.len()
        invariant
            hn == h@.len(),
            i + nd@.len() <= h@.len(),
            j <= nd@.len(),
            forall|k: int| 0 <= k < j ==> h@[i + k] == nd@[k],
        decreases nd@.len() - j,
    {
        if h[i + j] != nd[j] {
            proof {
                assert(h@.subrange(i as int, i + nd@.len() as int)[j as int] != nd@[j as int]);
            }
            return false;
        }
        j = j + 1;
    }
    proof {
        assert(h@.subrange(i as int, i + nd@.len() as int) =~= nd@);
    }
    true
}

/// The first position at or after `from` where `nd` occurs in `h`, if any.
pub fn find_first(h: &Vec<char>, from: usize, nd: &Vec<char>) -> (r: Option<usize>)
    ensures
        match r {
            Some(i) => from <= i && match_at(h@, nd@, i as int)
                && forall|j: int| from <= j < i ==> !match_at(h@, nd@, j),
            None => forall|j: int| from <= j ==> !match_at(h@, nd@, j),
        },
{
    if nd.len() > h.len() {
        return None;
    }
    let last = h.len() - nd.len();
    if from > last {
        return None;
    }
    let mut i: usize = from;
    loop
        invariant
            nd@.len() <= h@.len(),
            last == h@.len() - nd@.len(),
            from <= i <= last,
            forall|j: int| from <= j < i ==> !match_at(h@, nd@, j),
        decreases last - i,
    {
        if check_match_at(h, nd, i) {
            return Some(i);
        }
        if i == last {
            proof {
                assert(forall|j: int| j > last ==> !match_at(h@, nd@, j));
            }
            return None;
        }
        i = i + 1;
    }
}

/// Whether `nd` occurs anywhere in `h`.
pub fn contains_chars(h: &Vec<char>, nd: &Vec<char>) -> (r: bool)
    ensures
        r == contains_seq(h@, nd@),
{
    match find_first(h, 0, nd) {
        Some(_) => true,
        None => {
            proof {
                assert(forall|j: int| j < 0 ==> !match_at(h@, nd@, j));
            }
            false
        },
    }
}

/// `s` with its leading whitespace removed.
pub open spec fn trim_start_spec(s: Seq<char>) -> Seq<char>
    decreases s.len(),
{
    if s.len() > 0 && is_ws(s[0]) {
        trim_start_spec(s.skip(1))
    } else {
        s
    }
}

/// `s` with its trailing whitespace removed.
pub open spec fn trim_end_spec(s: Seq<char>) -> Seq<char>
    decreases s.len(),
{
    if s.len() > 0 && is_ws(s[s.len() - 1]) {
        trim_end_spec(s.take(s.len() - 1))
    } else {
        s
    }
}

/// `s` with whitespace removed from both ends.
pub open spec fn trim_spec(s: Seq<char>) -> Seq<char> {
    trim_end_spec(trim_start_spec(s))
}

/// If the first `k` characters are whitespace, trimming the start skips them all.
pub proof fn lemma_trim_start_skip(s: Seq<char>, k: int)
    requires
        0 <= k <= s.len(),
        forall|i: int| 0 <= i < k ==> is_ws(s[i]),
        k == s.len() || !is_ws(s[k]),
    ensures
        trim_start_spec(s) == s.skip(k),
    decreases k,
{
    if k == 0 {
        if s.len() > 0 && is_ws(s[0]) {
            assert(false);
        }
        assert(s.skip(0) =~= s);
    } else {
        assert(is_ws(s[0]));
        lemma_trim_start_skip(s.skip(1), k - 1);
        assert(s.skip(1).skip(k - 1) =~= s.skip(k));
    }
}

/// If the last `k` characters are whitespace, trimming the end drops them all.
pub proof fn lemma_trim_end_take(s: Seq<char>, k: int)
    requires
        0 <= k <= s.len(),
        forall|i: int| s.len() - k <= i < s.len() ==> is_ws(s[i]),
        k == s.len() || !is_ws(s[s.len() - k - 1]),
    ensures
        trim_end_spec(s) == s.take(s.len() - k),
    decreases k,
{
    if k == 0 {
        assert(s.take(s.len() as int) =~= s);
    } else {
        assert(is_ws(s[s.len() - 1]));
        lemma_trim_end_take(s.take(s.len() - 1), k - 1);
        assert(s.take(s.len() - 1).take(s.len() - k) =~= s.take(s.len() - k));
    }
}

/// The characters of `v` with leading and trailing whitespace removed.
pub fn trim_chars(v: &Vec<char>) -> (r: Vec<char>)
    ensures
        r@ == trim_spec(v@),
{
    let n = v.len();
    let mut a: usize = 0;
    while a < n && is_ws_char(v[a])
        invariant
            n == v@.len(),
            a <= n,
            forall|i: int| 0 <= i < a ==> is_ws(v@[i]),
        decreases n - a,
    {
        a = a + 1;
    }
    proof {
        lemma_trim_start_skip(v@, a as int);
    }
    let mut b: usize = n;
    while b > a && is_ws_char(v[b - 1])
        invariant
            n == v@.len(),
            a <= b <= n,
            forall|i: int| b <= i < n ==> is_ws(v@[i]),
        decreases b,
    {
        b = b - 1;
    }
    let ghost tail = v@.skip(a as int);
    proof {
        if b == a {
            assert(forall|i: int| 0 <= i < tail.len() ==> is_ws(#[trigger] tail[i])) by {
                assert(forall|i: int| 0 <= i < tail.len() ==> tail[i] == v@[i + a]);
            }
            lemma_trim_end_take(tail, tail.len() as int);
        } else {
            assert(forall|i: int| tail.len() - (n - b) <= i < tail.len() ==> is_ws(
                #[trigger] tail[i],
            )) by {
                assert(forall|i: int| 0 <= i < tail.len() ==> tail[i] == v@[i + a]);
            }
            assert(tail[tail.len() - (n - b) - 1] == v@[b - 1]);
            assert(!is_ws(v@[b - 1]));
            lemma_trim_end_take(tail, (n - b) as int);
        }
    }
    let mut out: Vec<char> = Vec::new();
    let mut i: usize = a;
    while i < b
        invariant
            a <= i <= b <= v@.len(),
            out@ == v@.subrange(a as int, i as int),
        decreases b - i,
    {
        out.push(v[i]);
        i = i + 1;
        proof {
            assert(out@ =~= v@.subrange(a as int, i as int));
        }
    }
    proof {
        assert(out@ =~= v@.skip(a as int).take((b - a) as int));
    }
    out
}

/// The decimal digit character for `n`, which must be below ten.
pub open spec fn dec_digit(n: int) -> char {
    if n == 0 { '0' } else if n == 1 { '1' } else if n == 2 { '2' } else if n == 3 { '3' }
    else if n == 4 { '4' } else if n == 5 { '5' } else if n == 6 { '6' } else if n == 7 { '7' }
    else if n == 8 { '8' } else { '9' }
}

/// The decimal digit string of a nonnegative number.
pub open spec fn dec_seq(n: int) -> Seq<char>
    decreases n,
{
    if n < 10 {
        seq![dec_digit(n)]
    } else {
        dec_seq(n / 10).push(dec_digit(n % 10))
    }
}

/// The decimal string of a possibly negative number.
pub open spec fn dec_seq_signed(n: int) -> Seq<char> {
    if n >= 0 {
        dec_seq(n)
    } else {
        seq!['-'] + dec_seq(-n)
    }
}

/// The decimal representation of `n`.
pub fn u64_to_string(n: u64) -> (r: String)
    ensures
        r@ == dec_seq(n as int),
    decreases n,
{
    let d: char = match n % 10 {
        0 => '0',
        1 => '1',
        2 => '2',
        3 => '3',
        4 => '4',
        5 => '5',
        6 => '6',
        7 => '7',
        8 => '8',
        _ => '9',
    };
    if n < 10 {
        let mut s = String::new();
        push_char(&mut s, d);
        proof {
            assert(s@ =~= dec_seq(n as int));
        }
        s
    } else {
        let mut s = u64_to_string(n / 10);
        push_char(&mut s, d);
        s
    }
}

/// The decimal representation of `n`, with a leading minus sign when negative.
pub fn i64_to_string(n: i64) -> (r: String)
    ensures
        r@ == dec_seq_signed(n as int),
{
    if n >= 0 {
        u64_to_string(n as u64)
    } else {
        let m: u64 = if n == i64::MIN {
            9223372036854775808u64
        } else {
            (-n) as u64
        };
        proof {
            assert(m == -(n as int));
        }
        let mut s = String::new();
        push_char(&mut s, '-');
        let tail = u64_to_string(m);
        append_str(&mut s, tail.as_str());
        proof {
            assert(s@ =~= dec_seq_signed(n as int));
        }
        s
    }
}

/// Relies on `String::push_str`: appends the characters of `t`.
#[verifier::external_body]
pub fn append_str(s: &mut String, t: &str)
    ensures
        final(s)@ == old(s)@ + t@,
{
    s.push_str(t)
}

/// Whether two strings hold the same characters.
pub fn str_eq(a: &str, b: &str) -> (r: bool)
    ensures
        r == (a@ == b@),
{
    let av = chars_of(a);
    let bv = chars_of(b);
    if av.len() != bv.len() {
        return false;
    }
    let n = av.len();
    let mut i: usize = 0;
    while i < n
        invariant
            av@ == a@,
            bv@ == b@,
            n == a@.len() == b@.len(),
            i <= n,
            forall|k: int| 0 <= k < i ==> a@[k] == b@[k],
        decreases n - i,
    {
        if av[i] != bv[i] {
            return false;
        }
        i = i + 1;
    }
    proof {
        assert(a@ =~= b@);
    }
    true
}

/// Whether `nd` occurs anywhere in `h`.
pub fn str_contains(h: &str, nd: &str) -> (r: bool)
    ensures
        r == contains_seq(h@, nd@),
{
    let hv = chars_of(h);
    let nv = chars_of(nd);
    contains_chars(&hv, &nv)
}

/// `p` is a prefix of `s`.
pub open spec fn starts_with_spec(s: Seq<char>, p: Seq<char>) -> bool {
    p.len() <= s.len() && s.take(p.len() as int) == p
}

/// `p` is a suffix of `s`.
pub open spec fn ends_with_spec(s: Seq<char>, p: Seq<char>) -> bool {
    p.len() <= s.len() && s.skip(s.len() - p.len()) == p
}

/// Whether `s` starts with `p`.
pub fn str_starts_with(s: &str, p: &str) -> (r: bool)
    ensures
        r == starts_with_spec(s@, p@),
{
    let sv = chars_of(s);
    let pv = chars_of(p);
    if pv.len() > sv.len() {
        return false;
    }
    let r = check_match_at(&sv, &pv, 0);
    proof {
        assert(s@.subrange(0, p@.len() as int) == s@.take(p@.len() as int));
    }
    r
}

/// Whether `s` ends with `p`.
pub fn str_ends_with(s: &str, p: &str) -> (r: bool)
    ensures
        r == ends_with_spec(s@, p@),
{
    let sv = chars_of(s);
    let pv = chars_of(p);
    if pv.len() > sv.len() {
        return false;
    }
    let at = sv.len() - pv.len();
    let r = check_match_at(&sv, &pv, at);
    proof {
        assert(s@.subrange(s@.len() - p@.len(), s@.len() - p@.len() + p@.len() as int) =~= s@.skip(
            s@.len() - p@.len(),
        ));
    }
    r
}

/// The characters of `s` with whitespace trimmed from both ends, as a string.
pub fn str_trim(s: &str) -> (r: String)
    ensures
        r@ == trim_spec(s@),
{
    let v = chars_of(s);
    let t = trim_chars(&v);
    string_of(&t)
}


/// A trimmed-start text has no leading whitespace.
pub proof fn lemma_trim_start_no_ws(s: Seq<char>)
    ensures
        trim_start_spec(s).len() > 0 ==> !is_ws(trim_start_spec(s)[0]),
    decreases s.len(),
{
    if s.len() > 0 && is_ws(s[0]) {
        lemma_trim_start_no_ws(s.skip(1));
    }
}

/// A trimmed-end text has no trailing whitespace, and is a prefix of the
/// original.
pub proof fn lemma_trim_end_prefix(s: Seq<char>)
    ensures
        trim_end_spec(s).len() > 0 ==> !is_ws(trim_end_spec(s)[trim_end_spec(s).len() - 1]),
        trim_end_spec(s).len() <= s.len(),
        forall|i: int| 0 <= i < trim_end_spec(s).len() ==> trim_end_spec(s)[i] == s[i],
    decreases s.len(),
{
    if s.len() > 0 && is_ws(s[s.len() - 1]) {
        lemma_trim_end_prefix(s.take(s.len() - 1));
        assert(forall|i: int| 0 <= i < trim_end_spec(s).len() ==> #[trigger] trim_end_spec(s)[i]
            == s.take(s.len() - 1)[i]);
    }
}

/// Trimming both ends twice is the same as trimming once.
pub proof fn lemma_trim_idempotent(s: Seq<char>)
    ensures
        trim_spec(trim_spec(s)) == trim_spec(s),
{
    let a = trim_start_spec(s);
    let y = trim_end_spec(a);
    lemma_trim_start_no_ws(s);
    lemma_trim_end_prefix(a);
    if y.len() > 0 {
        assert(y[0] == a[0]);
        assert(!is_ws(y[0]));
    }
    assert(trim_start_spec(y) == y);
    assert(trim_end_spec(y) == y);
}


/// ASCII lowercase of one character; everything but an uppercase ASCII
/// letter is left alone.
pub open spec fn ascii_lower(c: char) -> char {
    if c == 'A' { 'a' } else if c == 'B' { 'b' } else if c == 'C' { 'c' }
    else if c == 'D' { 'd' } else if c == 'E' { 'e' } else if c == 'F' { 'f' }
    else if c == 'G' { 'g' } else if c == 'H' { 'h' } else if c == 'I' { 'i' }
    else if c == 'J' { 'j' } else if c == 'K' { 'k' } else if c == 'L' { 'l' }
    else if c == 'M' { 'm' } else if c == 'N' { 'n' } else if c == 'O' { 'o' }
    else if c == 'P' { 'p' } else if c == 'Q' { 'q' } else if c == 'R' { 'r' }
    else if c == 'S' { 's' } else if c == 'T' { 't' } else if c == 'U' { 'u' }
    else if c == 'V' { 'v' } else if c == 'W' { 'w' } else if c == 'X' { 'x' }
    else if c == 'Y' { 'y' } else if c == 'Z' { 'z' } else { c }
}

/// Executable [`ascii_lower`].
pub fn ascii_lower_char(c: char) -> (r: char)
    ensures
        r == ascii_lower(c),
{
    match c {
        'A' => 'a', 'B' => 'b', 'C' => 'c', 'D' => 'd', 'E' => 'e', 'F' => 'f',
        'G' => 'g', 'H' => 'h', 'I' => 'i', 'J' => 'j', 'K' => 'k', 'L' => 'l',
        'M' => 'm', 'N' => 'n', 'O' => 'o', 'P' => 'p', 'Q' => 'q', 'R' => 'r',
        'S' => 's', 'T' => 't', 'U' => 'u', 'V' => 'v', 'W' => 'w', 'X' => 'x',
        'Y' => 'y', 'Z' => 'z', _ => c,
    }
}

/// `s` with every character ASCII-lowercased.
pub open spec fn ascii_lower_seq(s: Seq<char>) -> Seq<char> {
    s.map_values(|c: char| ascii_lower(c))
}

/// ASCII-lowercases a whole string.
pub fn ascii_lowercase(s: &str) -> (r: String)
    ensures
        r@ == ascii_lower_seq(s@),
{
    let chars = chars_of(s);
    let n = chars.len();
    let mut out: Vec<char> = Vec::new();
    let mut i: usize = 0;
    while i < n
        invariant
            chars@ == s@,
            n == s@.len(),
            i <= n,
            out@.len() == i,
            forall|k: int| 0 <= k < i ==> out@[k] == ascii_lower(s@[k]),
        decreases n - i,
    {
        out.push(ascii_lower_char(chars[i]));
        i = i + 1;
    }
    proof {
        assert(out@ =~= ascii_lower_seq(s@));
    }
    string_of(&out)
}

}
