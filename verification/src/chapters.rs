//! Chapter recognition for imported books: finds the title lines and cuts
//! the text into chapters between them.
use vstd::prelude::*;
use crate::book::ChapterInfo;
use crate::export::{lines_exec, split_lines};
use crate::text::{append_str, chars_of, contains_seq, contains_chars, dec_seq, str_trim,
    trim_chars, trim_spec, u64_to_string};
use crate::workspace::no_ws_spec;

verus! {

/// How many bytes one character takes in UTF-8.
pub open spec fn utf8_len(c: char) -> int {
    if (c as int) < 0x80 {
        1
    } else if (c as int) < 0x800 {
        2
    } else if (c as int) < 0x10000 {
        3
    } else {
        4
    }
}

/// How many bytes a text takes in UTF-8.
pub open spec fn byte_len(s: Seq<char>) -> int
    decreases s.len(),
{
    if s.len() == 0 {
        0
    } else {
        utf8_len(s[0]) + byte_len(s.skip(1))
    }
}

/// Byte length is never negative.
proof fn lemma_byte_len_nonneg(s: Seq<char>)
    ensures
        byte_len(s) >= 0,
    decreases s.len(),
{
    if s.len() > 0 {
        lemma_byte_len_nonneg(s.skip(1));
    }
}

/// Byte length is nonnegative and splits over a cut.
proof fn lemma_byte_len_split(s: Seq<char>, i: int)
    requires
        0 <= i <= s.len(),
    ensures
        byte_len(s) == byte_len(s.take(i)) + byte_len(s.skip(i)),
        byte_len(s) >= 0,
    decreases s.len(),
{
    if s.len() == 0 {
        assert(s.take(i) =~= s);
        assert(s.skip(i) =~= s);
    } else if i == 0 {
        assert(s.take(0) =~= Seq::<char>::empty());
        assert(s.skip(0) =~= s);
        lemma_byte_len_split(s.skip(1), 0);
    } else {
        lemma_byte_len_split(s.skip(1), i - 1);
        assert(s.take(i).skip(1) =~= s.skip(1).take(i - 1));
        assert(s.skip(i) =~= s.skip(1).skip(i - 1));
        assert(byte_len(s.take(i)) == utf8_len(s[0]) + byte_len(s.skip(1).take(i - 1)));
    }
}

/// The UTF-8 byte count of one character.
fn utf8_len_exec(c: char) -> (r: usize)
    ensures
        r as int == utf8_len(c),
        1 <= r <= 4,
{
    let code = c as u32;
    if code < 0x80 {
        1
    } else if code < 0x800 {
        2
    } else if code < 0x10000 {
        3
    } else {
        4
    }
}

/// Whether the text is under fifty bytes of UTF-8.
fn byte_len_under_50(chars: &Vec<char>) -> (r: bool)
    ensures
        r == (byte_len(chars@) < 50),
{
    let n = chars.len();
    let mut acc: usize = 0;
    let mut i: usize = 0;
    proof {
        assert(chars@.take(0) =~= Seq::<char>::empty());
    }
    while i < n
        invariant
            n == chars@.len(),
            i <= n,
            acc as int == byte_len(chars@.take(i as int)),
            acc < 50,
        decreases n - i,
    {
        proof {
            lemma_byte_len_split(chars@.take(i + 1), i as int);
            assert(chars@.take(i + 1).take(i as int) =~= chars@.take(i as int));
            assert(chars@.take(i + 1).skip(i as int) =~= seq![chars@[i as int]]);
            assert(byte_len(seq![chars@[i as int]]) == utf8_len(chars@[i as int])) by {
                assert(seq![chars@[i as int]].skip(1) =~= Seq::<char>::empty());
                assert(byte_len(Seq::<char>::empty()) == 0);
            }
        }
        acc = acc + utf8_len_exec(chars[i]);
        i = i + 1;
        if acc >= 50 {
            proof {
                lemma_byte_len_split(chars@, i as int);
                lemma_byte_len_nonneg(chars@.skip(i as int));
            }
            return false;
        }
    }
    proof {
        assert(chars@.take(n as int) =~= chars@);
    }
    true
}

/// A chapter-title line: trimmed, it opens with the chapter-number prefix,
/// names a chapter, section or episode, and stays under fifty bytes.
pub open spec fn is_title_line(line: Seq<char>) -> bool {
    let t = trim_spec(line);
    t.len() > 0 && t[0] == '第' && (contains_seq(t, "章"@) || contains_seq(t, "节"@)
        || contains_seq(t, "回"@)) && byte_len(t) < 50
}

/// Whether one line is a chapter title.
fn is_title_exec(line: &str) -> (r: bool)
    ensures
        r == is_title_line(line@),
{
    let line_chars = chars_of(line);
    let t = trim_chars(&line_chars);
    if t.len() == 0 || t[0] != '第' {
        return false;
    }
    let zhang = chars_of("章");
    let jie = chars_of("节");
    let hui = chars_of("回");
    if !(contains_chars(&t, &zhang) || contains_chars(&t, &jie) || contains_chars(&t, &hui)) {
        return false;
    }
    byte_len_under_50(&t)
}

/// The positions of the title lines, from `from` on.
pub open spec fn title_indices(lines: Seq<Seq<char>>, from: int) -> Seq<int>
    decreases lines.len() - from when 0 <= from <= lines.len()
{
    if from >= lines.len() {
        Seq::empty()
    } else if is_title_line(lines[from]) {
        seq![from] + title_indices(lines, from + 1)
    } else {
        title_indices(lines, from + 1)
    }
}

/// The non-whitespace character count of the lines in `[a, b)`.
pub open spec fn words_in(lines: Seq<Seq<char>>, a: int, b: int) -> int
    decreases b - a when a <= b
{
    if a >= b {
        0
    } else {
        no_ws_spec(lines[a]).len() + words_in(lines, a + 1, b)
    }
}

/// The total character count of the lines in `[a, b)`.
pub open spec fn lens_in(lines: Seq<Seq<char>>, a: int, b: int) -> int
    decreases b - a when a <= b
{
    if a >= b {
        0
    } else {
        lines[a].len() + lens_in(lines, a + 1, b)
    }
}

/// Dropping whitespace never grows a text.
proof fn lemma_no_ws_le(line: Seq<char>)
    ensures
        0 <= no_ws_spec(line).len() <= line.len(),
    decreases line.len(),
{
    if line.len() > 0 {
        lemma_no_ws_le(line.skip(1));
    }
}

/// The word count of a span is bounded by its character count.
proof fn lemma_words_le_lens(lines: Seq<Seq<char>>, a: int, b: int)
    requires
        0 <= a <= b <= lines.len(),
    ensures
        0 <= words_in(lines, a, b) <= lens_in(lines, a, b),
    decreases b - a,
{
    if a < b {
        lemma_no_ws_le(lines[a]);
        lemma_words_le_lens(lines, a + 1, b);
    }
}

/// A span's character count is bounded by the whole's.
proof fn lemma_lens_mono(lines: Seq<Seq<char>>, a: int, b: int)
    requires
        0 <= a <= b <= lines.len(),
    ensures
        0 <= lens_in(lines, a, b) <= lens_in(lines, 0, lines.len() as int),
    decreases b - a, a,
{
    if a > 0 {
        lemma_lens_split(lines, 0, a, lines.len() as int);
        lemma_lens_split(lines, a, b, lines.len() as int);
        lemma_lens_nonneg(lines, 0, a);
        lemma_lens_nonneg(lines, b, lines.len() as int);
        lemma_lens_nonneg(lines, a, b);
    } else {
        lemma_lens_split(lines, 0, b, lines.len() as int);
        lemma_lens_nonneg(lines, b, lines.len() as int);
        lemma_lens_nonneg(lines, 0, b);
    }
}

/// Character counts are nonnegative.
proof fn lemma_lens_nonneg(lines: Seq<Seq<char>>, a: int, b: int)
    requires
        0 <= a <= b <= lines.len(),
    ensures
        lens_in(lines, a, b) >= 0,
    decreases b - a,
{
    if a < b {
        lemma_lens_nonneg(lines, a + 1, b);
    }
}

/// Character counts split over a cut.
proof fn lemma_lens_split(lines: Seq<Seq<char>>, a: int, m: int, b: int)
    requires
        0 <= a <= m <= b <= lines.len(),
    ensures
        lens_in(lines, a, b) == lens_in(lines, a, m) + lens_in(lines, m, b),
    decreases m - a,
{
    if a < m {
        lemma_lens_split(lines, a + 1, m, b);
    }
}

/// The lines of a text together hold no more characters than the text.
proof fn lemma_split_lines_len(s: Seq<char>)
    ensures
        ({
            let lines = split_lines(s);
            lens_in(lines, 0, lines.len() as int) <= s.len()
        }),
    decreases s.len(),
{
    crate::sse::lemma_nl_index(s);
    let lines = split_lines(s);
    if crate::sse::has_newline(s) {
        let rest = crate::sse::sse_rest_of(s);
        lemma_split_lines_len(rest);
        let sub = split_lines(rest);
        assert(forall|k: int| 1 <= k < lines.len() ==> lines[k] == sub[k - 1]);
        lemma_lens_tail_shift(lines, sub);
        assert(lines[0].len() <= crate::sse::nl_index(s));
    } else if s.len() > 0 {
        assert(lens_in(lines, 1, 1) == 0);
    }
}

/// Shifting off the first line shifts the count.
proof fn lemma_lens_tail_shift(lines: Seq<Seq<char>>, sub: Seq<Seq<char>>)
    requires
        lines.len() == sub.len() + 1,
        forall|k: int| 1 <= k < lines.len() ==> lines[k] == sub[k - 1],
    ensures
        lens_in(lines, 1, lines.len() as int) == lens_in(sub, 0, sub.len() as int),
    decreases sub.len(),
{
    lemma_lens_shift(lines, sub, 1);
}

/// The counts of matching spans agree.
proof fn lemma_lens_shift(lines: Seq<Seq<char>>, sub: Seq<Seq<char>>, a: int)
    requires
        lines.len() == sub.len() + 1,
        1 <= a <= lines.len(),
        forall|k: int| 1 <= k < lines.len() ==> lines[k] == sub[k - 1],
    ensures
        lens_in(lines, a, lines.len() as int) == lens_in(sub, a - 1, sub.len() as int),
    decreases lines.len() - a,
{
    if a < lines.len() {
        lemma_lens_shift(lines, sub, a + 1);
    }
}

/// One recognized chapter, abstractly.
#[verifier::ext_equal]
pub struct ChapterRec {
    pub id: int,
    pub title: Seq<char>,
    pub start: int,
    pub end: int,
    pub words: int,
}

/// The chapters cut out by the title lines: candidate `k` spans from its
/// title line to just before the next one (or the end), counts the words
/// of the lines between, and is kept only when something stands between.
/// Every candidate consumes an identifier, kept or not.
pub open spec fn chapters_spec(lines: Seq<Seq<char>>, titles: Seq<int>, k: int) -> Seq<
    ChapterRec,
>
    decreases titles.len() - k when 0 <= k <= titles.len()
{
    if k >= titles.len() {
        Seq::empty()
    } else {
        let start = titles[k];
        let bound = if k + 1 < titles.len() {
            titles[k + 1]
        } else {
            lines.len() as int
        };
        let rest = chapters_spec(lines, titles, k + 1);
        if bound > start + 1 {
            seq![
                ChapterRec {
                    id: k + 1,
                    title: trim_spec(lines[start]),
                    start,
                    end: bound - 1,
                    words: words_in(lines, start + 1, bound),
                },
            ] + rest
        } else {
            rest
        }
    }
}

/// A built chapter carries its record plus the word-count summary.
pub open spec fn chapter_matches(c: ChapterInfo, rec: ChapterRec) -> bool {
    &&& c.id == rec.id
    &&& c.title@ == rec.title
    &&& c.start_line == rec.start
    &&& c.end_line == rec.end
    &&& c.word_count == rec.words
    &&& c.summary@ == "约"@ + dec_seq(rec.words) + "字"@
    &&& c.key_events@.len() == 0
    &&& c.characters_appearing@.len() == 0
}

/// The title positions of the given lines.
fn title_indices_exec(lines: &Vec<String>, Ghost(views): Ghost<Seq<Seq<char>>>) -> (r: Vec<
    usize,
>)
    requires
        lines@.len() == views.len(),
        forall|k: int| 0 <= k < views.len() ==> (#[trigger] lines@[k])@ == views[k],
    ensures
        ({
            let titles = title_indices(views, 0);
            r@.len() == titles.len() && forall|k: int| 0 <= k < titles.len()
                ==> (#[trigger] r@[k]) as int == titles[k]
        }),
{
    let ghost titles = title_indices(views, 0);
    let mut out: Vec<usize> = Vec::new();
    let mut i: usize = 0;
    proof {
        assert(titles.skip(0) =~= titles);
    }
    while i < lines.len()
        invariant
            lines@.len() == views.len(),
            forall|k: int| 0 <= k < views.len() ==> (#[trigger] lines@[k])@ == views[k],
            titles == title_indices(views, 0),
            i <= views.len(),
            out@.len() <= titles.len(),
            titles.skip(out@.len() as int) == title_indices(views, i as int),
            forall|k: int| 0 <= k < out@.len() ==> (#[trigger] out@[k]) as int == titles[k],
        decreases views.len() - i,
    {
        let ghost l = out@.len() as int;
        if is_title_exec(lines[i].as_str()) {
            proof {
                assert(titles.skip(l) == seq![i as int] + title_indices(views, i + 1));
                assert(titles.skip(l).len() > 0);
                assert(titles.skip(l)[0] == titles[l]);
                assert(titles[l] == i as int);
                assert(titles.skip(l).skip(1) =~= titles.skip(l + 1));
            }
            out.push(i);
        }
        i = i + 1;
    }
    proof {
        assert(title_indices(views, views.len() as int) =~= Seq::<int>::empty());
        assert(titles.skip(out@.len() as int) =~= Seq::<int>::empty());
    }
    out
}

/// The word count of the lines in `[a, b)`.
fn words_in_exec(lines: &Vec<String>, a: usize, b: usize, total: usize, Ghost(views): Ghost<
    Seq<Seq<char>>,
>) -> (r: usize)
    requires
        lines@.len() == views.len(),
        forall|k: int| 0 <= k < views.len() ==> (#[trigger] lines@[k])@ == views[k],
        a <= b <= views.len(),
        lens_in(views, 0, views.len() as int) <= total,
    ensures
        r as int == words_in(views, a as int, b as int),
{
    let mut acc: usize = 0;
    let mut i: usize = b;
    proof {
        lemma_words_le_lens(views, b as int, b as int);
    }
    while i > a
        invariant
            lines@.len() == views.len(),
            forall|k: int| 0 <= k < views.len() ==> (#[trigger] lines@[k])@ == views[k],
            a <= i <= b <= views.len(),
            lens_in(views, 0, views.len() as int) <= total,
            acc as int == words_in(views, i as int, b as int),
        decreases i,
    {
        i = i - 1;
        let line_chars = chars_of(lines[i].as_str());
        let mut cnt: usize = 0;
        let mut j: usize = 0;
        proof {
            assert(no_ws_spec(views[i as int].take(0)) =~= Seq::<char>::empty());
            assert(views[i as int].take(0) =~= Seq::<char>::empty());
        }
        while j < line_chars.len()
            invariant
                line_chars@ == views[i as int],
                i < views.len(),
                j <= line_chars@.len(),
                cnt as int == no_ws_spec(views[i as int].take(j as int)).len(),
                cnt <= j,
            decreases line_chars@.len() - j,
        {
            proof {
                crate::workspace::lemma_no_ws_snoc(
                    views[i as int].take(j as int),
                    views[i as int][j as int],
                );
                assert(views[i as int].take(j + 1) =~= views[i as int].take(j as int).push(
                    views[i as int][j as int],
                ));
            }
            if !crate::text::is_ws_char(line_chars[j]) {
                cnt = cnt + 1;
            }
            j = j + 1;
        }
        proof {
            assert(views[i as int].take(views[i as int].len() as int) =~= views[i as int]);
            lemma_words_le_lens(views, i as int, b as int);
            lemma_lens_mono(views, i as int, b as int);
        }
        acc = acc + cnt;
    }
    acc
}

/// Cuts an imported text into chapters at its title lines. Each recognized
/// title opens a chapter reaching to just before the next title; chapters
/// with nothing between the titles are dropped, though they still consume
/// an identifier. A text without title lines has no chapters.
pub fn extract_chapters(content: &str) -> (r: Vec<ChapterInfo>)
    ensures
        ({
            let lines = split_lines(content@);
            let recs = chapters_spec(lines, title_indices(lines, 0), 0);
            r@.len() == recs.len() && forall|k: int| 0 <= k < recs.len() ==> chapter_matches(
                #[trigger] r@[k],
                recs[k],
            )
        }),
{
    let content_chars = chars_of(content);
    let total = content_chars.len();
    let lines = lines_exec(content);
    let ghost views = split_lines(content@);
    proof {
        lemma_split_lines_len(content@);
    }
    let titles = title_indices_exec(&lines, Ghost(views));
    let ghost tspec = title_indices(views, 0);
    let ghost recs = chapters_spec(views, tspec, 0);
    let mut out: Vec<ChapterInfo> = Vec::new();
    let mut k: usize = 0;
    proof {
        lemma_title_indices_bounds(views, 0);
        assert(recs.skip(0) =~= recs);
    }
    while k < titles.len()
        invariant
            lines@.len() == views.len(),
            forall|j: int| 0 <= j < views.len() ==> (#[trigger] lines@[j])@ == views[j],
            views == split_lines(content@),
            tspec == title_indices(views, 0),
            titles@.len() == tspec.len(),
            forall|j: int| 0 <= j < tspec.len() ==> (#[trigger] titles@[j]) as int == tspec[j],
            forall|j: int| 0 <= j < tspec.len() ==> 0 <= #[trigger] tspec[j] < views.len(),
            forall|j: int| 0 <= j < tspec.len() - 1 ==> #[trigger] tspec[j] < tspec[j + 1],
            lens_in(views, 0, views.len() as int) <= total,
            recs == chapters_spec(views, tspec, 0),
            k <= tspec.len(),
            out@.len() + chapters_spec(views, tspec, k as int).len() == recs.len(),
            chapters_spec(views, tspec, k as int) == recs.skip(out@.len() as int),
            forall|j: int| 0 <= j < out@.len() ==> chapter_matches(#[trigger] out@[j], recs[j]),
        decreases tspec.len() - k,
    {
        let start = titles[k];
        let bound = if k + 1 < titles.len() {
            titles[k + 1]
        } else {
            lines.len()
        };
        if bound > start + 1 {
            let words = words_in_exec(&lines, start + 1, bound, total, Ghost(views));
            let title = str_trim(lines[start].as_str());
            let mut summary = String::new();
            append_str(&mut summary, "约");
            append_str(&mut summary, u64_to_string(words as u64).as_str());
            append_str(&mut summary, "字");
            let chapter = ChapterInfo {
                id: k + 1,
                title,
                start_line: start,
                end_line: bound - 1,
                word_count: words,
                summary,
                key_events: Vec::new(),
                characters_appearing: Vec::new(),
            };
            proof {
                let l = out@.len() as int;
                assert(recs.skip(l).len() > 0);
                assert(recs.skip(l)[0] == recs[l]);
                assert(recs.skip(l).skip(1) =~= recs.skip(l + 1));
                assert(summary@ =~= "约"@ + dec_seq(words as int) + "字"@);
            }
            out.push(chapter);
        }
        k = k + 1;
    }
    proof {
        assert(chapters_spec(views, tspec, tspec.len() as int) =~= Seq::<ChapterRec>::empty());
        assert(recs.skip(out@.len() as int) =~= Seq::<ChapterRec>::empty());
    }
    out
}

/// Title positions are in range and strictly increasing.
proof fn lemma_title_indices_bounds(lines: Seq<Seq<char>>, from: int)
    requires
        0 <= from <= lines.len(),
    ensures
        ({
            let t = title_indices(lines, from);
            (forall|j: int| 0 <= j < t.len() ==> from <= #[trigger] t[j] < lines.len())
                && (forall|j: int| 0 <= j < t.len() - 1 ==> #[trigger] t[j] < t[j + 1])
        }),
    decreases lines.len() - from,
{
    if from < lines.len() {
        lemma_title_indices_bounds(lines, from + 1);
        let t = title_indices(lines, from);
        let rest = title_indices(lines, from + 1);
        if is_title_line(lines[from]) {
            assert(forall|j: int| 1 <= j < t.len() ==> t[j] == rest[j - 1]);
        }
    }
}

}
