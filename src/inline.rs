//! The line converter: inline emphasis, strong, code, underline and links.
use vstd::prelude::*;
use crate::text::{push_str, push_chars, chars_of, string_of};

verus! {

/// The four kinds of toggled inline markup.
#[derive(PartialEq, Eq, Structural, Clone, Copy)]
pub enum Tag {
    Em,
    Strong,
    Code,
    Underline,
}

/// The parity flags of the four toggles, one per tag.
#[derive(PartialEq, Eq, Structural, Clone, Copy)]
pub struct Toggles {
    pub em: bool,
    pub strong: bool,
    pub code: bool,
    pub underline: bool,
}

/// The state of a link capture, as sequences of characters.
pub enum LinkView {
    Idle,
    Text(Seq<char>),
    Href(Seq<char>, Seq<char>),
}

/// The state of a link capture: the text between `[` and `]`, then the
/// target between `(` and `)`.
pub enum Capture {
    Idle,
    Text(Vec<char>),
    Href(Vec<char>, Vec<char>),
}

impl View for Capture {
    type V = LinkView;

    open spec fn view(&self) -> LinkView {
        match self {
            Capture::Idle => LinkView::Idle,
            Capture::Text(t) => LinkView::Text(t@),
            Capture::Href(t, h) => LinkView::Href(t@, h@),
        }
    }
}

/// One unit of converted output: literal text, or an opening or closing tag.
pub enum Piece {
    Lit(Seq<char>),
    Open(Tag),
    Close(Tag),
}

pub open spec fn flag(t: Toggles, tag: Tag) -> bool {
    match tag {
        Tag::Em => t.em,
        Tag::Strong => t.strong,
        Tag::Code => t.code,
        Tag::Underline => t.underline,
    }
}

pub open spec fn flip(t: Toggles, tag: Tag) -> Toggles {
    match tag {
        Tag::Em => Toggles { em: !t.em, ..t },
        Tag::Strong => Toggles { strong: !t.strong, ..t },
        Tag::Code => Toggles { code: !t.code, ..t },
        Tag::Underline => Toggles { underline: !t.underline, ..t },
    }
}

pub open spec fn open_text(tag: Tag) -> Seq<char> {
    match tag {
        Tag::Em => "<em>"@,
        Tag::Strong => "<strong>"@,
        Tag::Code => "<code>"@,
        Tag::Underline => "<u>"@,
    }
}

pub open spec fn close_text(tag: Tag) -> Seq<char> {
    match tag {
        Tag::Em => "</em>"@,
        Tag::Strong => "</strong>"@,
        Tag::Code => "</code>"@,
        Tag::Underline => "</u>"@,
    }
}

pub open spec fn piece_text(p: Piece) -> Seq<char> {
    match p {
        Piece::Lit(s) => s,
        Piece::Open(tag) => open_text(tag),
        Piece::Close(tag) => close_text(tag),
    }
}

/// The characters of a sequence of pieces, in order.
pub open spec fn render(ps: Seq<Piece>) -> Seq<char>
    decreases ps.len(),
{
    if ps.len() == 0 {
        Seq::empty()
    } else {
        render(ps.drop_last()) + piece_text(ps.last())
    }
}

/// The piece that a toggle of `tag` emits when its flag is `t` before the flip.
pub open spec fn toggle_piece(t: Toggles, tag: Tag) -> Piece {
    if flag(t, tag) {
        Piece::Close(tag)
    } else {
        Piece::Open(tag)
    }
}

pub open spec fn anchor(text: Seq<char>, href: Seq<char>) -> Seq<char> {
    "<a href=\""@ + href + "\">"@ + text + "</a>"@
}

/// One step of the scan at position `i`: the pieces emitted, the next position,
/// and the new flags and link state.
pub open spec fn step(s: Seq<char>, i: int, t: Toggles, l: LinkView) -> (Seq<Piece>, int, Toggles, LinkView) {
    let c = s[i];
    let next_is = |d: char| i + 1 < s.len() && s[i + 1] == d;
    match l {
        LinkView::Text(txt) => if c == ']' {
            if next_is('(') {
                (seq![], i + 2, t, LinkView::Href(txt, seq![]))
            } else {
                (seq![Piece::Lit("["@ + txt + "]"@)], i + 1, t, LinkView::Idle)
            }
        } else {
            (seq![], i + 1, t, LinkView::Text(txt.push(c)))
        },
        LinkView::Href(txt, href) => if c == ')' {
            (seq![Piece::Lit(anchor(txt, href))], i + 1, t, LinkView::Idle)
        } else {
            (seq![], i + 1, t, LinkView::Href(txt, href.push(c)))
        },
        LinkView::Idle => if c == '[' {
            (seq![], i + 1, t, LinkView::Text(seq![]))
        } else if c == '*' && next_is('*') {
            (seq![toggle_piece(t, Tag::Strong)], i + 2, flip(t, Tag::Strong), l)
        } else if c == '*' {
            (seq![toggle_piece(t, Tag::Em)], i + 1, flip(t, Tag::Em), l)
        } else if c == '`' {
            (seq![toggle_piece(t, Tag::Code)], i + 1, flip(t, Tag::Code), l)
        } else if c == '_' {
            (seq![toggle_piece(t, Tag::Underline)], i + 1, flip(t, Tag::Underline), l)
        } else {
            (seq![Piece::Lit(seq![c])], i + 1, t, l)
        },
    }
}

pub open spec fn close_if(t: Toggles, tag: Tag) -> Seq<Piece> {
    if flag(t, tag) {
        seq![Piece::Close(tag)]
    } else {
        seq![]
    }
}

/// The literal form of a link capture still open at the end of a line.
pub open spec fn link_pieces(l: LinkView) -> Seq<Piece> {
    match l {
        LinkView::Idle => seq![],
        LinkView::Text(txt) => seq![Piece::Lit("["@ + txt)],
        LinkView::Href(txt, href) => seq![Piece::Lit("["@ + txt + "]("@ + href)],
    }
}

/// What the end of a line emits: an open link capture as literal text, then a
/// closing tag for each flag still set.
pub open spec fn flush(t: Toggles, l: LinkView) -> Seq<Piece> {
    link_pieces(l) + close_if(t, Tag::Em) + close_if(t, Tag::Strong) + close_if(t, Tag::Code) + close_if(
        t,
        Tag::Underline,
    )
}

/// The pieces emitted from position `i` to the end of the line.
pub open spec fn pieces_from(s: Seq<char>, i: int, t: Toggles, l: LinkView) -> Seq<Piece>
    decreases s.len() - i,
{
    if i < 0 || i >= s.len() {
        flush(t, l)
    } else {
        let (ps, j, t2, l2) = step(s, i, t, l);
        ps + pieces_from(s, j, t2, l2)
    }
}

pub open spec fn no_flags() -> Toggles {
    Toggles { em: false, strong: false, code: false, underline: false }
}

/// The pieces that a whole line converts to.
pub open spec fn line_pieces(s: Seq<char>) -> Seq<Piece> {
    pieces_from(s, 0, no_flags(), LinkView::Idle)
}

/// The HTML that a line converts to.
pub open spec fn line_html(s: Seq<char>) -> Seq<char> {
    render(line_pieces(s))
}

/// Rendering a concatenation renders each part in turn.
pub proof fn lemma_render_concat(a: Seq<Piece>, b: Seq<Piece>)
    ensures
        render(a + b) == render(a) + render(b),
    decreases b.len(),
{
    if b.len() == 0 {
        assert(a + b == a);
    } else {
        lemma_render_concat(a, b.drop_last());
        assert((a + b).drop_last() == a + b.drop_last());
    }
}

/// Number of opening minus closing tags of kind `tag` in `ps`.
pub open spec fn balance(ps: Seq<Piece>, tag: Tag) -> int
    decreases ps.len(),
{
    if ps.len() == 0 {
        0
    } else {
        balance(ps.drop_last(), tag) + match ps.last() {
            Piece::Open(g) => if g == tag { 1int } else { 0 },
            Piece::Close(g) => if g == tag { -1int } else { 0 },
            Piece::Lit(_) => 0,
        }
    }
}

proof fn lemma_balance_concat(a: Seq<Piece>, b: Seq<Piece>, tag: Tag)
    ensures
        balance(a + b, tag) == balance(a, tag) + balance(b, tag),
    decreases b.len(),
{
    if b.len() == 0 {
        assert(a + b == a);
    } else {
        lemma_balance_concat(a, b.drop_last(), tag);
        assert((a + b).drop_last() == a + b.drop_last());
    }
}

proof fn lemma_balance_one(p: Piece, tag: Tag)
    ensures
        balance(seq![p], tag) == match p {
            Piece::Open(g) => if g == tag { 1int } else { 0 },
            Piece::Close(g) => if g == tag { -1int } else { 0 },
            Piece::Lit(_) => 0,
        },
{
    assert(seq![p].drop_last() == Seq::<Piece>::empty());
    assert(balance(Seq::<Piece>::empty(), tag) == 0);
}

proof fn lemma_balance_from(s: Seq<char>, i: int, t: Toggles, l: LinkView, tag: Tag)
    ensures
        balance(pieces_from(s, i, t, l), tag) == if flag(t, tag) { -1int } else { 0 },
    decreases s.len() - i,
{
    if i < 0 || i >= s.len() {
        let link = link_pieces(l);
        assert(balance(link, tag) == 0) by {
            if link.len() > 0 {
                lemma_balance_one(link[0], tag);
                assert(link == seq![link[0]]);
            }
        }
        assert forall|g: Tag| balance(#[trigger] close_if(t, g), tag) == if flag(t, g) && g == tag { -1int } else { 0 } by {
            if flag(t, g) {
                lemma_balance_one(Piece::Close(g), tag);
            }
        }
        lemma_balance_concat(link, close_if(t, Tag::Em), tag);
        lemma_balance_concat(link + close_if(t, Tag::Em), close_if(t, Tag::Strong), tag);
        lemma_balance_concat(link + close_if(t, Tag::Em) + close_if(t, Tag::Strong), close_if(t, Tag::Code), tag);
        lemma_balance_concat(link + close_if(t, Tag::Em) + close_if(t, Tag::Strong) + close_if(t, Tag::Code), close_if(t, Tag::Underline), tag);
    } else {
        let (ps, j, t2, l2) = step(s, i, t, l);
        lemma_balance_from(s, j, t2, l2, tag);
        lemma_balance_concat(ps, pieces_from(s, j, t2, l2), tag);
        if ps.len() > 0 {
            assert(ps == seq![ps[0]]);
            lemma_balance_one(ps[0], tag);
        }
    }
}

/// Every converted line holds as many opening as closing tags of each toggled
/// kind (emphasis, strong, inline code, underline): a marker left open is
/// closed at the end of the line.
pub proof fn lemma_tags_balanced(s: Seq<char>, tag: Tag)
    ensures
        balance(line_pieces(s), tag) == 0,
{
    lemma_balance_from(s, 0, no_flags(), LinkView::Idle, tag);
}

fn push_toggle(out: &mut Vec<char>, t: Toggles, tag: Tag) -> (r: Toggles)
    ensures
        final(out)@ == old(out)@ + piece_text(toggle_piece(t, tag)),
        r == flip(t, tag),
{
    let on = match tag {
        Tag::Em => t.em,
        Tag::Strong => t.strong,
        Tag::Code => t.code,
        Tag::Underline => t.underline,
    };
    if on {
        push_close(out, tag);
    } else {
        match tag {
            Tag::Em => push_str(out, "<em>"),
            Tag::Strong => push_str(out, "<strong>"),
            Tag::Code => push_str(out, "<code>"),
            Tag::Underline => push_str(out, "<u>"),
        }
    }
    match tag {
        Tag::Em => Toggles { em: !t.em, ..t },
        Tag::Strong => Toggles { strong: !t.strong, ..t },
        Tag::Code => Toggles { code: !t.code, ..t },
        Tag::Underline => Toggles { underline: !t.underline, ..t },
    }
}

fn push_close(out: &mut Vec<char>, tag: Tag)
    ensures
        final(out)@ == old(out)@ + close_text(tag),
{
    match tag {
        Tag::Em => push_str(out, "</em>"),
        Tag::Strong => push_str(out, "</strong>"),
        Tag::Code => push_str(out, "</code>"),
        Tag::Underline => push_str(out, "</u>"),
    }
}

proof fn lemma_render_one(p: Piece)
    ensures
        render(seq![p]) == piece_text(p),
{
    assert(seq![p].drop_last() == Seq::<Piece>::empty());
    assert(render(Seq::<Piece>::empty()) == Seq::<char>::empty());
    assert(Seq::<char>::empty() + piece_text(p) == piece_text(p));
}

/// Performs one step of the scan at position `i`, appending what it emits.
fn advance(line: &[char], i: usize, t: Toggles, link: Capture, out: &mut Vec<char>) -> (r: (
    usize,
    Toggles,
    Capture,
))
    requires
        i < line@.len(),
    ensures
        ({
            let (ps, j, t2, l2) = step(line@, i as int, t, link@);
            &&& final(out)@ == old(out)@ + render(ps)
            &&& r.0 as int == j
            &&& r.1 == t2
            &&& r.2@ == l2
        }),
{
    let ghost (ps, j, t2, l2) = step(line@, i as int, t, link@);
    let c = line[i];
    let next = if i + 1 < line.len() { Some(line[i + 1]) } else { None };
    proof {
        if ps.len() > 0 {
            assert(ps == seq![ps[0]]);
            lemma_render_one(ps[0]);
        } else {
            assert(render(ps) == Seq::<char>::empty());
        }
    }
    match link {
        Capture::Text(mut txt) => {
            if c == ']' {
                if next == Some('(') {
                    (i + 2, t, Capture::Href(txt, Vec::new()))
                } else {
                    push_str(out, "[");
                    push_chars(out, txt.as_slice());
                    push_str(out, "]");
                    (i + 1, t, Capture::Idle)
                }
            } else {
                txt.push(c);
                (i + 1, t, Capture::Text(txt))
            }
        },
        Capture::Href(txt, mut href) => {
            if c == ')' {
                push_str(out, "<a href=\"");
                push_chars(out, href.as_slice());
                push_str(out, "\">");
                push_chars(out, txt.as_slice());
                push_str(out, "</a>");
                (i + 1, t, Capture::Idle)
            } else {
                href.push(c);
                (i + 1, t, Capture::Href(txt, href))
            }
        },
        Capture::Idle => {
            if c == '[' {
                (i + 1, t, Capture::Text(Vec::new()))
            } else if c == '*' && next == Some('*') {
                (i + 2, push_toggle(out, t, Tag::Strong), Capture::Idle)
            } else if c == '*' {
                (i + 1, push_toggle(out, t, Tag::Em), Capture::Idle)
            } else if c == '`' {
                (i + 1, push_toggle(out, t, Tag::Code), Capture::Idle)
            } else if c == '_' {
                (i + 1, push_toggle(out, t, Tag::Underline), Capture::Idle)
            } else {
                out.push(c);
                (i + 1, t, Capture::Idle)
            }
        },
    }
}

/// Appends the HTML of one line to `out`.
pub fn convert_line_into(line: &[char], out: &mut Vec<char>)
    ensures
        final(out)@ == old(out)@ + line_html(line@),
{
    let ghost s = line@;
    let n = line.len();
    let mut t = Toggles { em: false, strong: false, code: false, underline: false };
    let mut link = Capture::Idle;
    let mut i: usize = 0;
    while i < n
        invariant
            n == s.len(),
            s == line@,
            i <= n,
            out@ + render(pieces_from(s, i as int, t, link@)) == old(out)@ + line_html(s),
        decreases n - i,
    {
        let ghost (ps, j, t2, l2) = step(s, i as int, t, link@);
        let (k, t_next, link_next) = advance(line, i, t, link, out);
        proof {
            lemma_render_concat(ps, pieces_from(s, j, t2, l2));
        }
        i = k;
        t = t_next;
        link = link_next;
    }
    proof {
        assert(pieces_from(s, i as int, t, link@) == flush(t, link@));
    }
    push_flush(out, t, link);
}

/// Appends what the end of a line emits.
fn push_flush(out: &mut Vec<char>, t: Toggles, link: Capture)
    ensures
        final(out)@ == old(out)@ + render(flush(t, link@)),
{
    let ghost l = link@;
    push_link_literal(out, link);
    push_close_if(out, t, Tag::Em);
    push_close_if(out, t, Tag::Strong);
    push_close_if(out, t, Tag::Code);
    push_close_if(out, t, Tag::Underline);
    proof {
        let a = link_pieces(l);
        let b = a + close_if(t, Tag::Em);
        let c = b + close_if(t, Tag::Strong);
        let d = c + close_if(t, Tag::Code);
        lemma_render_concat(a, close_if(t, Tag::Em));
        lemma_render_concat(b, close_if(t, Tag::Strong));
        lemma_render_concat(c, close_if(t, Tag::Code));
        lemma_render_concat(d, close_if(t, Tag::Underline));
    }
}

fn push_link_literal(out: &mut Vec<char>, link: Capture)
    ensures
        final(out)@ == old(out)@ + render(link_pieces(link@)),
{
    proof {
        let ps = link_pieces(link@);
        if ps.len() > 0 {
            assert(ps == seq![ps[0]]);
            lemma_render_one(ps[0]);
        } else {
            assert(render(ps) == Seq::<char>::empty());
        }
    }
    match link {
        Capture::Idle => {},
        Capture::Text(txt) => {
            push_str(out, "[");
            push_chars(out, txt.as_slice());
        },
        Capture::Href(txt, href) => {
            push_str(out, "[");
            push_chars(out, txt.as_slice());
            push_str(out, "](");
            push_chars(out, href.as_slice());
        },
    }
}

fn push_close_if(out: &mut Vec<char>, t: Toggles, tag: Tag)
    ensures
        final(out)@ == old(out)@ + render(close_if(t, tag)),
{
    let on = match tag {
        Tag::Em => t.em,
        Tag::Strong => t.strong,
        Tag::Code => t.code,
        Tag::Underline => t.underline,
    };
    if on {
        push_close(out, tag);
        proof {
            lemma_render_one(Piece::Close(tag));
        }
    } else {
        assert(render(close_if(t, tag)) == Seq::<char>::empty());
    }
}

/// Converts the inline markup of one line into HTML.
pub fn convert_line(source: &str) -> (html: String)
    ensures
        html@ == line_html(source@),
{
    let line = chars_of(source);
    let mut out: Vec<char> = Vec::new();
    convert_line_into(line.as_slice(), &mut out);
    assert(out@ == line_html(source@));
    string_of(&out)
}

} // verus!
