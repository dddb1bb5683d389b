use mdsite::{convert_document, convert_line, heading_id, slug_of_folded};

#[test]
fn code_tags_balanced_odd_backticks() {
    let out = convert_line("a `b` c `d");
    assert_eq!(out, "a <code>b</code> c <code>d</code>");
    assert_eq!(out.matches("<code>").count(), out.matches("</code>").count());
}

#[test]
fn unclosed_markers_closed_in_fixed_order() {
    assert_eq!(
        convert_line("_u `c **s *e"),
        "<u>u <code>c <strong>s <em>e</em></strong></code></u>"
    );
}

#[test]
fn code_block_passthrough_verbatim() {
    let out = convert_document("```\n  *x* [y](z) _w_\n<b>\n```\n");
    assert_eq!(out, "<pre>\n  *x* [y](z) _w_\n<b>\n</pre>\n");
}

#[test]
fn fence_closes_open_paragraph() {
    assert_eq!(convert_document("a\n```\nb\n```"), "<p>\na<br>\n</p>\n<pre>\nb\n</pre>\n");
}

#[test]
fn heading_id_derivation() {
    assert_eq!(heading_id("Hello, World!"), "hello-world");
    assert_eq!(
        convert_document("## Hello, World!"),
        "<h2 id=\"hello-world\">Hello, World!</h2>\n"
    );
}

#[test]
fn heading_id_keeps_hyphens_and_underscores() {
    assert_eq!(heading_id("A-b_C d?"), "a-b_c-d");
    assert_eq!(slug_of_folded("x y.z"), "x-yz");
}

#[test]
fn heading_closes_paragraph_and_converts_inline() {
    assert_eq!(
        convert_document("p\n# *T*"),
        "<p>\np<br>\n</p>\n<h1 id=\"t\"><em>T</em></h1>\n"
    );
}

#[test]
fn seven_hashes_is_no_heading() {
    assert_eq!(convert_document("####### x"), "<p>\n####### x<br>\n");
    assert_eq!(convert_document("#x"), "<p>\n#x<br>\n");
}

#[test]
fn link_round_trip() {
    assert_eq!(
        convert_line("[click here](http://example.com)"),
        "<a href=\"http://example.com\">click here</a>"
    );
}

#[test]
fn unterminated_link_literal() {
    assert_eq!(convert_line("say [oops"), "say [oops");
    assert_eq!(convert_line("[a](b"), "[a](b");
}

#[test]
fn bracket_without_paren_is_literal() {
    assert_eq!(convert_line("[a] *b*"), "[a] <em>b</em>");
}

#[test]
fn markers_inside_link_are_literal() {
    assert_eq!(convert_line("[*a*](_b_)"), "<a href=\"_b_\">*a*</a>");
}

#[test]
fn paragraph_bracketing() {
    // A paragraph open at the end of the document stays open.
    assert_eq!(convert_document("a\n\nb"), "<p>\na<br>\n</p>\n<p>\nb<br>\n");
    assert_eq!(
        convert_document("a\n\nb\n\n"),
        "<p>\na<br>\n</p>\n<p>\nb<br>\n</p>\n"
    );
}

#[test]
fn crlf_lines() {
    assert_eq!(convert_document("a\r\n\r\nb\r\n"), "<p>\na<br>\n</p>\n<p>\nb<br>\n");
}

#[test]
fn raw_html_line_in_paragraph() {
    assert_eq!(convert_document("<div>*x*</div>"), "<p>\n<div>*x*</div>\n");
}

#[test]
fn raw_html_block_passthrough() {
    assert_eq!(
        convert_document("a\n{RAW_HTML}\n<i>*x*</i>\n\n{RAW_HTML}\nb"),
        "<p>\na<br>\n</p>\n<i>*x*</i>\n\n<p>\nb<br>\n"
    );
}

#[test]
fn media_image_line() {
    assert_eq!(
        convert_document("==image:cat.png:A cat"),
        "<img loading=\"lazy\" src=cat.png alt=A cat title=A cat></img>\n"
    );
}

#[test]
fn media_image_default_alt() {
    assert_eq!(
        convert_document("==image:cat.png"),
        "<img loading=\"lazy\" src=cat.png alt=\"\" title=\"\"></img>\n"
    );
    assert_eq!(
        convert_document("==image:"),
        "<img loading=\"lazy\" src= alt=\"\" title=\"\"></img>\n"
    );
}

#[test]
fn media_video_line() {
    assert_eq!(
        convert_document("==video:v.mp4:Clip:autoplay"),
        "<video loading=\"lazy\" src=v.mp4 alt=Clip title=Clip controls autoplay></video>\n"
    );
    assert_eq!(
        convert_document("==video:v.mp4"),
        "<video loading=\"lazy\" src=v.mp4 alt=\"\" title=\"\" controls ></video>\n"
    );
}

#[test]
fn media_youtube_line() {
    assert_eq!(
        convert_document("==youtube:abc"),
        "<a href=\"https://youtu.be/abc\">https://youtu.be/abc</a>\n<iframe loading=\"lazy\" src=\"https://www.youtube-nocookie.com/embed/abc\" width=\"600px\" height=\"340px\" allowfullscreen></iframe>"
    );
}

#[test]
fn nested_emphasis_strong() {
    assert_eq!(convert_line("**a*b*c**"), "<strong>a<em>b</em>c</strong>");
    assert_eq!(convert_line("**a*b**c"), "<strong>a<em>b</strong>c</em>");
}

#[test]
fn underline_toggle() {
    assert_eq!(convert_line("_a_ b"), "<u>a</u> b");
}

#[test]
fn empty_inputs() {
    assert_eq!(convert_line(""), "");
    assert_eq!(convert_document(""), "");
    assert_eq!(convert_document("\n\n"), "");
}
