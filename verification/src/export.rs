//! Pure helpers behind the book exporters: XHTML escaping, chapter markup,
//! and fixed-width line wrapping.
use vstd::prelude::*;
use crate::sse::views_of;
use crate::text::{append_str, chars_of, is_ws, push_char, string_of, trim_end_spec, trim_spec,
    is_ws_char};

verus! {

/// The XHTML escape of one character.
pub open spec fn esc_char(c: char) -> Seq<char> {
    if c == '&' {
        "&amp;"@
    } else if c == '<' {
        "&lt;"@
    } else if c == '>' {
        "&gt;"@
    } else if c == '"' {
        "&quot;"@
    } else if c == '\'' {
        "&apos;"@
    } else {
        seq![c]
    }
}

/// The XHTML escape of a text.
pub open spec fn escape_spec(s: Seq<char>) -> Seq<char>
    decreases s.len(),
{
    if s.len() == 0 {
        Seq::empty()
    } else {
        esc_char(s[0]) + escape_spec(s.skip(1))
    }
}

/// Escaping distributes over appending one character.
proof fn lemma_escape_snoc(s: Seq<char>, c: char)
    ensures
        escape_spec(s.push(c)) == escape_spec(s) + esc_char(c),
    decreases s.len(),
{
    let whole = s.push(c);
    if s.len() == 0 {
        assert(whole.skip(1) =~= Seq::<char>::empty());
        assert(whole[0] == c);
        assert(escape_spec(Seq::<char>::empty()) =~= Seq::<char>::empty());
        assert(escape_spec(whole) =~= escape_spec(s) + esc_char(c));
    } else {
        assert(whole.skip(1) =~= s.skip(1).push(c));
        assert(whole[0] == s[0]);
        lemma_escape_snoc(s.skip(1), c);
        assert(esc_char(s[0]) + (escape_spec(s.skip(1)) + esc_char(c)) =~= (esc_char(s[0])
            + escape_spec(s.skip(1))) + esc_char(c));
    }
}

/// Escapes a text for XHTML: ampersand, angle brackets and both quotes
/// become entities.
pub fn escape_xhtml(s: &str) -> (r: String)
    ensures
        r@ == escape_spec(s@),
{
    let chars = chars_of(s);
    let n = chars.len();
    let mut out = String::new();
    let mut i: usize = 0;
    proof {
        assert(s@.take(0) =~= Seq::<char>::empty());
    }
    while i < n
        invariant
            chars@ == s@,
            n == s@.len(),
            i <= n,
            out@ == escape_spec(s@.take(i as int)),
        decreases n - i,
    {
        proof {
            lemma_escape_snoc(s@.take(i as int), s@[i as int]);
            assert(s@.take(i + 1) =~= s@.take(i as int).push(s@[i as int]));
        }
        let c = chars[i];
        if c == '&' {
            append_str(&mut out, "&amp;");
        } else if c == '<' {
            append_str(&mut out, "&lt;");
        } else if c == '>' {
            append_str(&mut out, "&gt;");
        } else if c == '"' {
            append_str(&mut out, "&quot;");
        } else if c == '\'' {
            append_str(&mut out, "&apos;");
        } else {
            push_char(&mut out, c);
            proof {
                assert(out@ =~= escape_spec(s@.take(i as int)) + esc_char(s@[i as int]));
            }
        }
        i = i + 1;
    }
    proof {
        assert(s@.take(n as int) =~= s@);
    }
    out
}

/// The text split into lines the way the exporters read it: at every
/// newline, a trailing carriage return trimmed, without a final empty
/// segment for a trailing newline.
pub open spec fn split_lines(s: Seq<char>) -> Seq<Seq<char>>
    decreases s.len() via split_lines_decreases
{
    if crate::sse::has_newline(s) {
        seq![crate::sse::sse_line_of(s)] + split_lines(crate::sse::sse_rest_of(s))
    } else if s.len() > 0 {
        seq![s]
    } else {
        Seq::empty()
    }
}

#[via_fn]
proof fn split_lines_decreases(s: Seq<char>) {
    crate::sse::lemma_nl_index(s);
}

/// Splits a text into lines.
pub(crate) fn lines_exec(s: &str) -> (r: Vec<String>)
    ensures
        r@.len() == split_lines(s@).len(),
        forall|i: int| 0 <= i < r@.len() ==> (#[trigger] r@[i])@ == split_lines(s@)[i],
{
    let mut buffer = String::from_str(s);
    let mut out: Vec<String> = Vec::new();
    loop
        invariant
            split_lines(s@) == views_of(out@) + split_lines(buffer@),
            forall|i: int| 0 <= i < out@.len() ==> (#[trigger] out@[i])@ == split_lines(s@)[i],
            out@.len() + split_lines(buffer@).len() == split_lines(s@).len(),
        decreases buffer@.len(),
    {
        let ghost before = buffer@;
        proof {
            crate::sse::lemma_nl_index(before);
        }
        match crate::sse::sse_take_line(&mut buffer) {
            Some(line) => {
                out.push(line);
                proof {
                    assert(views_of(out@) + split_lines(buffer@) =~~= split_lines(s@));
                }
            },
            None => {
                if buffer.as_str().is_empty() {
                    proof {
                        assert(split_lines(buffer@) =~~= Seq::<Seq<char>>::empty());
                        assert(views_of(out@) + split_lines(buffer@) =~~= views_of(out@));
                    }
                    return out;
                }
                out.push(buffer);
                proof {
                    assert(split_lines(before) =~~= seq![before]);
                    assert(views_of(out@) =~~= split_lines(s@));
                }
                return out;
            },
        }
    }
}

/// The paragraph markup of one chapter body line: nothing for a blank
/// line, an escaped paragraph otherwise. The line keeps its leading
/// whitespace but loses its trailing whitespace.
pub open spec fn paragraph_spec(line: Seq<char>) -> Seq<char> {
    let t = trim_end_spec(line);
    if trim_spec(t).len() == 0 {
        Seq::empty()
    } else {
        "<p>"@ + escape_spec(t) + "</p>"@
    }
}

/// The paragraph markup of a whole body.
pub open spec fn body_spec(lines: Seq<Seq<char>>) -> Seq<char>
    decreases lines.len(),
{
    if lines.len() == 0 {
        Seq::empty()
    } else {
        paragraph_spec(lines[0]) + body_spec(lines.skip(1))
    }
}

/// Folding one more line appends its paragraph.
proof fn lemma_body_snoc(lines: Seq<Seq<char>>, l: Seq<char>)
    ensures
        body_spec(lines.push(l)) == body_spec(lines) + paragraph_spec(l),
    decreases lines.len(),
{
    let whole = lines.push(l);
    if lines.len() == 0 {
        assert(whole.skip(1) =~= Seq::<Seq<char>>::empty());
        assert(whole[0] == l);
        assert(body_spec(Seq::<Seq<char>>::empty()) =~= Seq::<char>::empty());
        assert(body_spec(whole) =~= body_spec(lines) + paragraph_spec(l));
    } else {
        assert(whole.skip(1) =~= lines.skip(1).push(l));
        assert(whole[0] == lines[0]);
        lemma_body_snoc(lines.skip(1), l);
        assert(paragraph_spec(lines[0]) + (body_spec(lines.skip(1)) + paragraph_spec(l)) =~= (
        paragraph_spec(lines[0]) + body_spec(lines.skip(1))) + paragraph_spec(l));
    }
}

/// The whole XHTML page of one chapter.
pub open spec fn chapter_xhtml_spec(title: Seq<char>, content: Seq<char>) -> Seq<char> {
    "<?xml version=\"1.0\" encoding=\"UTF-8\"?>\n<html xmlns=\"http://www.w3.org/1999/xhtml\" xmlns:epub=\"http://www.idpf.org/2007/ops\">\n  <head>\n    <title>"@
        + escape_spec(title) + "</title>\n    <meta charset=\"utf-8\" />\n  </head>\n  <body>\n    <h2>"@
        + escape_spec(title) + "</h2>\n    "@ + body_spec(split_lines(content))
        + "\n  </body>\n</html>"@
}

/// Renders one chapter as an XHTML page: the escaped title in head and
/// heading, each non-blank body line an escaped paragraph.
pub fn chapter_to_xhtml(title: &str, content: &str) -> (r: String)
    ensures
        r@ == chapter_xhtml_spec(title@, content@),
{
    let lines = lines_exec(content);
    let mut body = String::new();
    let mut i: usize = 0;
    let ghost all = split_lines(content@);
    proof {
        assert(all.take(0) =~= Seq::<Seq<char>>::empty());
    }
    while i < lines.len()
        invariant
            all == split_lines(content@),
            lines@.len() == all.len(),
            forall|k: int| 0 <= k < all.len() ==> (#[trigger] lines@[k])@ == all[k],
            i <= all.len(),
            body@ == body_spec(all.take(i as int)),
        decreases lines@.len() - i,
    {
        proof {
            lemma_body_snoc(all.take(i as int), all[i as int]);
            assert(all.take(i + 1) =~= all.take(i as int).push(all[i as int]));
        }
        let line = &lines[i];
        let line_chars = chars_of(line.as_str());
        let mut e: usize = line_chars.len();
        while e > 0 && is_ws_char(line_chars[e - 1])
            invariant
                line_chars@ == lines@[i as int]@,
                e <= line_chars@.len(),
                forall|j: int| e <= j < line_chars@.len() ==> is_ws(line_chars@[j]),
            decreases e,
        {
            e = e - 1;
        }
        proof {
            crate::text::lemma_trim_end_take(line_chars@, line_chars@.len() - e);
        }
        let mut t_chars: Vec<char> = Vec::new();
        let mut k: usize = 0;
        proof {
            assert(t_chars@ =~= line_chars@.take(0));
        }
        while k < e
            invariant
                line_chars@ == lines@[i as int]@,
                k <= e <= line_chars@.len(),
                t_chars@ == line_chars@.take(k as int),
            decreases e - k,
        {
            t_chars.push(line_chars[k]);
            k = k + 1;
            proof {
                assert(t_chars@ =~= line_chars@.take(k as int));
            }
        }
        let t = string_of(&t_chars);
        let t_trimmed = crate::text::str_trim(t.as_str());
        if !t_trimmed.as_str().is_empty() {
            append_str(&mut body, "<p>");
            let escaped = escape_xhtml(t.as_str());
            append_str(&mut body, escaped.as_str());
            append_str(&mut body, "</p>");
        }
        proof {
            assert(body@ =~= body_spec(all.take(i + 1)));
        }
        i = i + 1;
    }
    proof {
        assert(all.take(all.len() as int) =~= all);
    }
    let mut page = String::new();
    append_str(
        &mut page,
        "<?xml version=\"1.0\" encoding=\"UTF-8\"?>\n<html xmlns=\"http://www.w3.org/1999/xhtml\" xmlns:epub=\"http://www.idpf.org/2007/ops\">\n  <head>\n    <title>",
    );
    let title_escaped = escape_xhtml(title);
    append_str(&mut page, title_escaped.as_str());
    append_str(&mut page, "</title>\n    <meta charset=\"utf-8\" />\n  </head>\n  <body>\n    <h2>");
    append_str(&mut page, title_escaped.as_str());
    append_str(&mut page, "</h2>\n    ");
    append_str(&mut page, body.as_str());
    append_str(&mut page, "\n  </body>\n</html>");
    page
}

/// One input line cut into pieces of exactly `max` characters, the last
/// piece shorter.
pub open spec fn chunks_of(line: Seq<char>, max: int) -> Seq<Seq<char>>
    decreases line.len() when max > 0
{
    if line.len() == 0 {
        Seq::empty()
    } else if line.len() <= max {
        seq![line]
    } else {
        seq![line.take(max)] + chunks_of(line.skip(max), max)
    }
}

/// The wrapped lines of a whole text: each input line's pieces, an empty
/// line after each input line.
pub open spec fn wrap_spec(lines: Seq<Seq<char>>, max: int) -> Seq<Seq<char>>
    decreases lines.len(),
{
    if lines.len() == 0 {
        Seq::empty()
    } else {
        chunks_of(lines[0], max) + seq![Seq::<char>::empty()] + wrap_spec(lines.skip(1), max)
    }
}

/// The views of a vector grow by the view of a pushed string.
proof fn lemma_r_prefix_push(v: Seq<String>, x: String)
    ensures
        views_of(v.push(x)) == views_of(v).push(x@),
{
    assert(views_of(v.push(x)) =~~= views_of(v).push(x@));
}

/// Wraps a text to `max_chars` characters a line, keeping a blank line
/// after each original line.
pub fn wrap_text(s: &str, max_chars: usize) -> (r: Vec<String>)
    requires
        max_chars > 0,
    ensures
        views_of(r@) == wrap_spec(split_lines(s@), max_chars as int),
{
    let lines = lines_exec(s);
    let mut out: Vec<String> = Vec::new();
    let mut i: usize = 0;
    let ghost all = split_lines(s@);
    let ghost max = max_chars as int;
    proof {
        assert(all.take(0) =~= Seq::<Seq<char>>::empty());
        assert(views_of(out@) =~~= wrap_spec(all.take(0), max));
    }
    while i < lines.len()
        invariant
            max_chars > 0,
            max == max_chars as int,
            all == split_lines(s@),
            lines@.len() == all.len(),
            forall|k: int| 0 <= k < all.len() ==> (#[trigger] lines@[k])@ == all[k],
            i <= all.len(),
            views_of(out@) == wrap_spec(all.take(i as int), max),
        decreases lines@.len() - i,
    {
        proof {
            lemma_wrap_snoc(all.take(i as int), all[i as int], max);
            assert(all.take(i + 1) =~= all.take(i as int).push(all[i as int]));
        }
        let line_chars = chars_of(lines[i].as_str());
        let n = line_chars.len();
        let ghost this_line = all[i as int];
        let ghost wrap_before = wrap_spec(all.take(i as int), max);
        let mut pos: usize = 0;
        let ghost mut chunks_part: Seq<Seq<char>> = Seq::empty();
        proof {
            assert(this_line.skip(0) =~= this_line);
            assert(chunks_part + chunks_of(this_line, max) =~~= chunks_of(this_line, max));
            assert(views_of(out@) =~~= wrap_before + chunks_part);
        }
        while n - pos > max_chars
            invariant
                max_chars > 0,
                max == max_chars as int,
                line_chars@ == this_line,
                n == this_line.len(),
                pos <= n,
                views_of(out@) == wrap_before + chunks_part,
                chunks_part + chunks_of(this_line.skip(pos as int), max) == chunks_of(
                    this_line,
                    max,
                ),
            decreases n - pos,
        {
            let mut piece: Vec<char> = Vec::new();
            let mut k: usize = pos;
            proof {
                assert(piece@ =~= this_line.subrange(pos as int, pos as int));
            }
            while k < pos + max_chars
                invariant
                    pos + max_chars <= n,
                    n == this_line.len(),
                    line_chars@ == this_line,
                    pos <= k <= pos + max_chars,
                    piece@ == this_line.subrange(pos as int, k as int),
                decreases pos + max_chars - k,
            {
                piece.push(line_chars[k]);
                k = k + 1;
                proof {
                    assert(piece@ =~= this_line.subrange(pos as int, k as int));
                }
            }
            let piece_s = string_of(&piece);
            proof {
                lemma_r_prefix_push(out@, piece_s);
            }
            out.push(piece_s);
            proof {
                let rest = this_line.skip(pos as int);
                assert(piece@ =~= rest.take(max));
                assert(rest.skip(max) =~= this_line.skip(pos + max_chars));
                assert(chunks_of(rest, max) == seq![piece@] + chunks_of(
                    this_line.skip(pos + max_chars),
                    max,
                ));
                chunks_part = chunks_part.push(piece@);
                assert(views_of(out@) =~~= wrap_before + chunks_part);
                assert(chunks_part + chunks_of(this_line.skip(pos + max_chars), max)
                    =~~= chunks_of(this_line, max));
            }
            pos = pos + max_chars;
        }
        if n - pos > 0 {
            let mut piece: Vec<char> = Vec::new();
            let mut k: usize = pos;
            proof {
                assert(piece@ =~= this_line.subrange(pos as int, pos as int));
            }
            while k < n
                invariant
                    n == this_line.len(),
                    line_chars@ == this_line,
                    pos <= k <= n,
                    piece@ == this_line.subrange(pos as int, k as int),
                decreases n - k,
            {
                piece.push(line_chars[k]);
                k = k + 1;
                proof {
                    assert(piece@ =~= this_line.subrange(pos as int, k as int));
                }
            }
            let piece_s = string_of(&piece);
            proof {
                lemma_r_prefix_push(out@, piece_s);
            }
            out.push(piece_s);
            proof {
                assert(piece@ =~= this_line.skip(pos as int));
                assert(chunks_of(this_line.skip(pos as int), max) =~~= seq![piece@]);
                chunks_part = chunks_part.push(piece@);
                assert(views_of(out@) =~~= wrap_before + chunks_part);
                assert(chunks_part =~~= chunks_of(this_line, max));
            }
        } else {
            proof {
                assert(this_line.skip(pos as int) =~= Seq::<char>::empty());
                assert(chunks_of(this_line.skip(pos as int), max) =~~= Seq::<Seq<char>>::empty());
                assert(chunks_part =~~= chunks_of(this_line, max));
            }
        }
        let blank = String::new();
        proof {
            lemma_r_prefix_push(out@, blank);
        }
        out.push(blank);
        proof {
            assert(views_of(out@) =~~= wrap_before + chunks_of(this_line, max) + seq![
                Seq::<char>::empty(),
            ]);
            assert(views_of(out@) =~~= wrap_spec(all.take(i + 1), max));
        }
        i = i + 1;
    }
    proof {
        assert(all.take(all.len() as int) =~= all);
    }
    out
}

/// Wrapping one more line appends its pieces and a blank line.
proof fn lemma_wrap_snoc(lines: Seq<Seq<char>>, l: Seq<char>, max: int)
    ensures
        wrap_spec(lines.push(l), max) == wrap_spec(lines, max) + chunks_of(l, max) + seq![
            Seq::<char>::empty(),
        ],
    decreases lines.len(),
{
    let whole = lines.push(l);
    if lines.len() == 0 {
        assert(whole.skip(1) =~= Seq::<Seq<char>>::empty());
        assert(whole[0] == l);
        assert(wrap_spec(Seq::<Seq<char>>::empty(), max) =~= Seq::<Seq<char>>::empty());
        assert(wrap_spec(whole, max) =~= wrap_spec(lines, max) + chunks_of(l, max) + seq![
            Seq::<char>::empty(),
        ]);
    } else {
        assert(whole.skip(1) =~= lines.skip(1).push(l));
        assert(whole[0] == lines[0]);
        lemma_wrap_snoc(lines.skip(1), l, max);
        assert(wrap_spec(whole, max) =~= wrap_spec(lines, max) + chunks_of(l, max) + seq![
            Seq::<char>::empty(),
        ]);
    }
}


/// Exports the book as a PDF. Rendering needs the system font machinery
/// that only the MSVC build carries; every other build reports that, with
/// no file written.
pub fn export_pdf(_workspace_root: &str) -> (r: Result<(String, usize), String>)
    ensures
        r matches Err(m) && m@ == "PDF 导出仅支持 MSVC 构建"@,
{
    Err(String::from_str("PDF 导出仅支持 MSVC 构建"))
}

}
