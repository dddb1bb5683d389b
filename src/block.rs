//! The block scanner: paragraphs, fenced code, raw HTML regions, headings and
//! media lines.
use vstd::prelude::*;
use vstd::string::StrSliceExecFns;
use crate::text::{
    has_prefix, after, push_str, push_chars, starts_with, split, split_on, views, copy_range,
    strip_cr, doc_lines, lower_of, lowercase, is_alnum, alphanumeric, chars_of, string_of,
};
use crate::inline::{line_html, convert_line_into};

verus! {

/// The block that is open at a line boundary.
#[derive(PartialEq, Eq, Structural, Clone, Copy, Debug)]
pub enum Block {
    Outside,
    Paragraph,
    Code,
    RawHtml,
}

/// What closing an open paragraph emits.
pub open spec fn close_par(st: Block) -> Seq<char> {
    if st == Block::Paragraph {
        "</p>\n"@
    } else {
        Seq::empty()
    }
}

/// The characters kept in a heading's id: a space becomes a hyphen, hyphens,
/// underscores and alphanumerics stay, everything else goes.
pub open spec fn slug_char(c: char) -> Seq<char> {
    if c == ' ' {
        seq!['-']
    } else if c == '-' || c == '_' || is_alnum(c) {
        seq![c]
    } else {
        Seq::empty()
    }
}

/// The id derived from already lower-cased heading text.
pub open spec fn slug(s: Seq<char>) -> Seq<char>
    decreases s.len(),
{
    if s.len() == 0 {
        Seq::empty()
    } else {
        slug(s.drop_last()) + slug_char(s.last())
    }
}

/// The index of the first character of `s`, from `i` on, that is not `#`.
pub open spec fn hash_run(s: Seq<char>, i: int) -> int
    decreases s.len() - i,
{
    if 0 <= i < s.len() && s[i] == '#' {
        hash_run(s, i + 1)
    } else {
        i
    }
}

/// The level of a heading line: one to six `#` followed by a space; zero for
/// any other line.
pub open spec fn heading_level(line: Seq<char>) -> int {
    let k = hash_run(line, 0);
    if 1 <= k <= 6 && k < line.len() && line[k] == ' ' {
        k
    } else {
        0
    }
}

pub open spec fn level_char(k: int) -> char {
    if k == 1 {
        '1'
    } else if k == 2 {
        '2'
    } else if k == 3 {
        '3'
    } else if k == 4 {
        '4'
    } else if k == 5 {
        '5'
    } else {
        '6'
    }
}

/// The HTML of a heading of level `k` with text `h`.
pub open spec fn heading_html(k: int, h: Seq<char>) -> Seq<char> {
    "<h"@ + seq![level_char(k)] + " id=\""@ + slug(lower_of(h)) + "\">"@ + line_html(h) + "</h"@
        + seq![level_char(k)] + ">\n"@
}

/// The alternative text of a media line's fields, `""` when absent.
pub open spec fn media_alt(f: Seq<Seq<char>>) -> Seq<char> {
    if f.len() > 1 {
        f[1]
    } else {
        "\"\""@
    }
}

pub open spec fn image_html(rest: Seq<char>) -> Seq<char> {
    let f = split(rest, ':');
    "<img loading=\"lazy\" src="@ + f[0] + " alt="@ + media_alt(f) + " title="@ + media_alt(f)
        + "></img>\n"@
}

pub open spec fn video_html(rest: Seq<char>) -> Seq<char> {
    let f = split(rest, ':');
    let extra = if f.len() > 2 {
        f[2]
    } else {
        Seq::empty()
    };
    "<video loading=\"lazy\" src="@ + f[0] + " alt="@ + media_alt(f) + " title="@ + media_alt(f)
        + " controls "@ + extra + "></video>\n"@
}

pub open spec fn youtube_html(id: Seq<char>) -> Seq<char> {
    "<a href=\"https://youtu.be/"@ + id + "\">https://youtu.be/"@ + id
        + "</a>\n<iframe loading=\"lazy\" src=\"https://www.youtube-nocookie.com/embed/"@ + id
        + "\" width=\"600px\" height=\"340px\" allowfullscreen></iframe>"@
}

/// What one line emits in block state `st`, and the state after it.
pub open spec fn block_step(line: Seq<char>, st: Block) -> (Seq<char>, Block) {
    if has_prefix(line, "```"@) {
        if st == Block::Code {
            ("</pre>\n"@, Block::Outside)
        } else {
            (close_par(st) + "<pre>\n"@, Block::Code)
        }
    } else if has_prefix(line, "{RAW_HTML}"@) {
        if st == Block::RawHtml {
            (Seq::empty(), Block::Outside)
        } else {
            (close_par(st), Block::RawHtml)
        }
    } else if st == Block::Code {
        (line + "\n"@, st)
    } else if has_prefix(line, "==image:"@) {
        (image_html(after(line, "==image:"@)), st)
    } else if has_prefix(line, "==video:"@) {
        (video_html(after(line, "==video:"@)), st)
    } else if has_prefix(line, "==youtube:"@) {
        (youtube_html(after(line, "==youtube:"@)), st)
    } else if heading_level(line) > 0 {
        let k = heading_level(line);
        (
            close_par(st) + heading_html(k, line.subrange(k + 1, line.len() as int)),
            if st == Block::Paragraph {
                Block::Outside
            } else {
                st
            },
        )
    } else if st == Block::RawHtml {
        (line + "\n"@, st)
    } else if line.len() == 0 {
        (close_par(st), Block::Outside)
    } else {
        let open = if st == Block::Outside {
            "<p>\n"@
        } else {
            Seq::empty()
        };
        let body = if line[0] == '<' {
            line + "\n"@
        } else {
            line_html(line) + "<br>\n"@
        };
        (open + body, Block::Paragraph)
    }
}

/// What a run of lines emits from block state `st`, and the state after it.
pub open spec fn blocks(lines: Seq<Seq<char>>, st: Block) -> (Seq<char>, Block)
    decreases lines.len(),
{
    if lines.len() == 0 {
        (Seq::empty(), st)
    } else {
        let (o, s1) = blocks(lines.drop_last(), st);
        let (o2, s2) = block_step(lines.last(), s1);
        (o + o2, s2)
    }
}

/// The HTML of a whole document.
pub open spec fn document_html(s: Seq<char>) -> Seq<char> {
    blocks(doc_lines(s), Block::Outside).0
}

/// Appends the id characters of already lower-cased text.
fn push_slug(out: &mut Vec<char>, folded: &[char])
    ensures
        final(out)@ == old(out)@ + slug(folded@),
{
    let mut i: usize = 0;
    while i < folded.len()
        invariant
            i <= folded@.len(),
            out@ == old(out)@ + slug(folded@.subrange(0, i as int)),
        decreases folded@.len() - i,
    {
        let c = folded[i];
        proof {
            assert(folded@.subrange(0, i + 1).drop_last() == folded@.subrange(0, i as int));
        }
        if c == ' ' {
            out.push('-');
        } else if c == '-' || c == '_' || alphanumeric(c) {
            out.push(c);
        }
        i = i + 1;
    }
    assert(folded@.subrange(0, folded@.len() as int) == folded@);
}

/// The id of a heading from its text already lower-cased.
pub fn slug_of_folded(folded: &str) -> (id: String)
    ensures
        id@ == slug(folded@),
{
    let chars = chars_of(folded);
    let mut out: Vec<char> = Vec::new();
    push_slug(&mut out, chars.as_slice());
    string_of(&out)
}

/// The characters of `text` lower-cased.
fn fold_chars(text: &[char]) -> (r: Vec<char>)
    ensures
        r@ == lower_of(text@),
{
    let v = copy_range(text, 0, text.len());
    assert(v@ == text@);
    let s = string_of(&v);
    let lower = lowercase(s.as_str());
    chars_of(lower.as_str())
}

/// The id of a heading with text `text`: lower-cased, spaces as hyphens,
/// hyphens, underscores and alphanumerics kept, everything else dropped.
pub fn heading_id(text: &str) -> (id: String)
    ensures
        id@ == slug(lower_of(text@)),
{
    let lower = lowercase(text);
    slug_of_folded(lower.as_str())
}

fn push_level(out: &mut Vec<char>, k: usize)
    requires
        1 <= k <= 6,
    ensures
        final(out)@ == old(out)@.push(level_char(k as int)),
{
    let c = if k == 1 {
        '1'
    } else if k == 2 {
        '2'
    } else if k == 3 {
        '3'
    } else if k == 4 {
        '4'
    } else if k == 5 {
        '5'
    } else {
        '6'
    };
    out.push(c);
}

/// The heading level of a line, zero where it is no heading.
fn level_of(line: &[char]) -> (k: usize)
    ensures
        k as int == heading_level(line@),
{
    let mut i: usize = 0;
    while i < line.len() && line[i] == '#'
        invariant
            i <= line@.len(),
            hash_run(line@, i as int) == hash_run(line@, 0),
        decreases line@.len() - i,
    {
        i = i + 1;
    }
    if 1 <= i && i <= 6 && i < line.len() && line[i] == ' ' {
        i
    } else {
        0
    }
}

fn push_heading(out: &mut Vec<char>, line: &[char], k: usize)
    requires
        1 <= k <= 6,
        k < line@.len(),
    ensures
        final(out)@ == old(out)@ + heading_html(k as int, line@.subrange(k + 1, line@.len() as int)),
{
    let header = copy_range(line, k + 1, line.len());
    let folded = fold_chars(header.as_slice());
    let ghost o0 = out@;
    push_str(out, "<h");
    push_level(out, k);
    push_str(out, " id=\"");
    push_slug(out, folded.as_slice());
    push_str(out, "\">");
    convert_line_into(header.as_slice(), out);
    push_str(out, "</h");
    push_level(out, k);
    push_str(out, ">\n");
    assert(out@ =~= o0 + heading_html(k as int, line@.subrange(k + 1, line@.len() as int)));
}

fn push_media_head(out: &mut Vec<char>, tag: &str, f: &Vec<Vec<char>>)
    requires
        f@.len() >= 1,
    ensures
        final(out)@ == old(out)@ + tag@ + f@[0]@ + " alt="@ + media_alt(views(f@)) + " title="@
            + media_alt(views(f@)),
{
    let ghost o0 = out@;
    push_str(out, tag);
    push_chars(out, f[0].as_slice());
    push_str(out, " alt=");
    let ghost o1 = out@;
    if f.len() > 1 {
        push_chars(out, f[1].as_slice());
    } else {
        push_str(out, "\"\"");
    }
    let ghost o2 = out@;
    push_str(out, " title=");
    if f.len() > 1 {
        push_chars(out, f[1].as_slice());
    } else {
        push_str(out, "\"\"");
    }
    assert(o2 == o1 + media_alt(views(f@)));
    assert(out@ =~= o0 + tag@ + f@[0]@ + " alt="@ + media_alt(views(f@)) + " title="@ + media_alt(
        views(f@),
    ));
}

fn push_image(out: &mut Vec<char>, rest: &[char])
    ensures
        final(out)@ == old(out)@ + image_html(rest@),
{
    let f = split_on(rest, ':');
    let ghost o0 = out@;
    push_media_head(out, "<img loading=\"lazy\" src=", &f);
    push_str(out, "></img>\n");
    assert(out@ =~= o0 + image_html(rest@));
}

fn push_video(out: &mut Vec<char>, rest: &[char])
    ensures
        final(out)@ == old(out)@ + video_html(rest@),
{
    let f = split_on(rest, ':');
    let ghost o0 = out@;
    push_media_head(out, "<video loading=\"lazy\" src=", &f);
    push_str(out, " controls ");
    if f.len() > 2 {
        push_chars(out, f[2].as_slice());
    }
    push_str(out, "></video>\n");
    assert(out@ =~= o0 + video_html(rest@));
}

fn push_youtube(out: &mut Vec<char>, id: &[char])
    ensures
        final(out)@ == old(out)@ + youtube_html(id@),
{
    let ghost o0 = out@;
    push_str(out, "<a href=\"https://youtu.be/");
    push_chars(out, id);
    push_str(out, "\">https://youtu.be/");
    push_chars(out, id);
    push_str(out, "</a>\n<iframe loading=\"lazy\" src=\"https://www.youtube-nocookie.com/embed/");
    push_chars(out, id);
    push_str(out, "\" width=\"600px\" height=\"340px\" allowfullscreen></iframe>");
    assert(out@ =~= o0 + youtube_html(id@));
}

/// The characters of `line` after a prefix of `p`.
fn rest_after(line: &[char], p: &str) -> (r: Vec<char>)
    requires
        has_prefix(line@, p@),
    ensures
        r@ == after(line@, p@),
{
    copy_range(line, p.unicode_len(), line.len())
}

fn push_close_par(out: &mut Vec<char>, st: Block)
    ensures
        final(out)@ == old(out)@ + close_par(st),
{
    if st == Block::Paragraph {
        push_str(out, "</p>\n");
    } else {
        assert(out@ == out@ + Seq::<char>::empty());
    }
}

/// Appends what one line emits in block state `st`; returns the state after it.
fn block_line(line: &[char], st: Block, out: &mut Vec<char>) -> (r: Block)
    ensures
        final(out)@ == old(out)@ + block_step(line@, st).0,
        r == block_step(line@, st).1,
{
    let ghost o0 = out@;
    if starts_with(line, "```") {
        if st == Block::Code {
            push_str(out, "</pre>\n");
            Block::Outside
        } else {
            push_close_par(out, st);
            push_str(out, "<pre>\n");
            assert(out@ =~= o0 + (close_par(st) + "<pre>\n"@));
            Block::Code
        }
    } else if starts_with(line, "{RAW_HTML}") {
        if st == Block::RawHtml {
            assert(out@ =~= o0 + Seq::<char>::empty());
            Block::Outside
        } else {
            push_close_par(out, st);
            Block::RawHtml
        }
    } else if st == Block::Code {
        push_chars(out, line);
        push_str(out, "\n");
        assert(out@ =~= o0 + (line@ + "\n"@));
        st
    } else if starts_with(line, "==image:") {
        let rest = rest_after(line, "==image:");
        push_image(out, rest.as_slice());
        st
    } else if starts_with(line, "==video:") {
        let rest = rest_after(line, "==video:");
        push_video(out, rest.as_slice());
        st
    } else if starts_with(line, "==youtube:") {
        let rest = rest_after(line, "==youtube:");
        push_youtube(out, rest.as_slice());
        st
    } else {
        let k = level_of(line);
        if k > 0 {
            push_close_par(out, st);
            push_heading(out, line, k);
            assert(out@ =~= o0 + (close_par(st) + heading_html(
                k as int,
                line@.subrange(k + 1, line@.len() as int),
            )));
            if st == Block::Paragraph {
                Block::Outside
            } else {
                st
            }
        } else if st == Block::RawHtml {
            push_chars(out, line);
            push_str(out, "\n");
            assert(out@ =~= o0 + (line@ + "\n"@));
            st
        } else if line.len() == 0 {
            push_close_par(out, st);
            Block::Outside
        } else {
            if st == Block::Outside {
                push_str(out, "<p>\n");
            }
            let ghost o1 = out@;
            if line[0] == '<' {
                push_chars(out, line);
                push_str(out, "\n");
            } else {
                convert_line_into(line, out);
                push_str(out, "<br>\n");
            }
            assert(out@ =~= o0 + block_step(line@, st).0);
            Block::Paragraph
        }
    }
}

/// Converts a document, given as characters, into HTML.
pub fn convert_chars(doc: &[char]) -> (html: Vec<char>)
    ensures
        html@ == document_html(doc@),
{
    let parts = split_on(doc, '\n');
    let ghost lines = doc_lines(doc@);
    let ghost ps = split(doc@, '\n');
    let n = parts.len();
    let mut out: Vec<char> = Vec::new();
    let mut st = Block::Outside;
    let mut k: usize = 0;
    assert(views(parts@) == ps);
    assert(ps.len() == n);
    while k + 1 < n
        invariant
            1 <= n == parts@.len() == ps.len(),
            views(parts@) == ps,
            lines == doc_lines(doc@),
            ps == split(doc@, '\n'),
            k + 1 <= n,
            (out@, st) == blocks(lines.subrange(0, k as int), Block::Outside),
        decreases n - k,
    {
        let part = &parts[k];
        let m = if part.len() > 0 && part[part.len() - 1] == '\r' {
            part.len() - 1
        } else {
            part.len()
        };
        let line = copy_range(part.as_slice(), 0, m);
        proof {
            assert(ps[k as int] == part@);
            assert(line@ =~= strip_cr(ps[k as int]));
            assert(lines[k as int] == line@);
            assert(lines.subrange(0, k + 1).drop_last() =~= lines.subrange(0, k as int));
        }
        st = block_line(line.as_slice(), st, &mut out);
        k = k + 1;
    }
    let last = &parts[n - 1];
    assert(ps[n - 1] == last@);
    if last.len() > 0 {
        st = block_line(last.as_slice(), st, &mut out);
        assert(lines.subrange(0, n as int).drop_last() =~= lines.subrange(0, n - 1));
        assert(lines.subrange(0, n as int) =~= lines);
    } else {
        assert(lines.subrange(0, n - 1) =~= lines);
    }
    out
}

/// Converts a markdown document into an HTML fragment. A block still open at the
/// end of the document is left open.
pub fn convert_document(markdown: &str) -> (html: String)
    ensures
        html@ == document_html(markdown@),
{
    let doc = chars_of(markdown);
    let out = convert_chars(doc.as_slice());
    string_of(&out)
}

/// The lines of a fenced code block, each followed by a newline.
pub open spec fn verbatim(lines: Seq<Seq<char>>) -> Seq<char>
    decreases lines.len(),
{
    if lines.len() == 0 {
        Seq::empty()
    } else {
        verbatim(lines.drop_last()) + lines.last() + "\n"@
    }
}

/// Inside an open fence every line comes out exactly as written, followed by a
/// newline, and the fence stays open, as long as no line starts a fence or a raw
/// HTML marker.
pub proof fn lemma_code_block_verbatim(lines: Seq<Seq<char>>)
    requires
        forall|i: int|
            0 <= i < lines.len() ==> !has_prefix(#[trigger] lines[i], "```"@) && !has_prefix(
                lines[i],
                "{RAW_HTML}"@,
            ),
    ensures
        blocks(lines, Block::Code) == (verbatim(lines), Block::Code),
    decreases lines.len(),
{
    if lines.len() > 0 {
        let init = lines.drop_last();
        assert forall|i: int| 0 <= i < init.len() implies !has_prefix(#[trigger] init[i], "```"@)
            && !has_prefix(init[i], "{RAW_HTML}"@) by {
            assert(init[i] == lines[i]);
        }
        lemma_code_block_verbatim(init);
        assert(lines.last() == lines[lines.len() - 1]);
        assert(verbatim(init) + (lines.last() + "\n"@) =~= verbatim(init) + lines.last() + "\n"@);
    }
}

} // verus!
