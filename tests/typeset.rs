use typst::feedback::{Decoration, DecorationKind, Span};
use typst::geom::{Margins, Size};
use typst::layout::LayoutError;
use typst::style::{FontLoader, PageStyle, TextStyle};
use typst::syntax::{parse, Node};
use typst::{Feedback, Typesetter};

#[test]
fn parse_empty_source() {
    let t = Typesetter::new(FontLoader::new(6));
    let p = t.parse("");
    assert!(p.output.nodes.is_empty());
    assert_eq!(p.feedback, Feedback::new());
}

#[test]
fn parse_splits_words_spaces_and_paragraphs() {
    let p = parse("ab  cé\n\n d\ne");
    assert_eq!(
        p.output.nodes,
        vec![
            Node::Text { span: Span::new(0, 2), chars: 2 },
            Node::Space { span: Span::new(2, 4) },
            Node::Text { span: Span::new(4, 7), chars: 2 },
            Node::Parbreak { span: Span::new(7, 10) },
            Node::Text { span: Span::new(10, 11), chars: 1 },
            Node::Space { span: Span::new(11, 12) },
            Node::Text { span: Span::new(12, 13), chars: 1 },
        ]
    );
    assert!(p.feedback.diagnostics.is_empty());
    let kinds: Vec<(DecorationKind, Span)> = p.feedback.decorations.iter().map(|d| (d.kind, d.span)).collect();
    assert_eq!(
        kinds,
        vec![
            (DecorationKind::Word, Span::new(0, 2)),
            (DecorationKind::Word, Span::new(4, 7)),
            (DecorationKind::Break, Span::new(7, 10)),
            (DecorationKind::Word, Span::new(10, 11)),
            (DecorationKind::Word, Span::new(12, 13)),
        ]
    );
}

#[test]
fn parse_whitespace_only() {
    let p = parse(" \t\r\n");
    assert_eq!(p.output.nodes, vec![Node::Space { span: Span::new(0, 4) }]);
}

#[test]
fn layout_of_empty_source_is_one_full_page() {
    let t = Typesetter::new(FontLoader::new(6));
    let tree = t.parse("").output;
    let l = t.layout(&tree).unwrap();
    assert_eq!(l.output.len(), 1);
    assert!(l.output[0].actions.is_empty());
    assert_eq!(l.output[0].dimensions, Size::new(595 - 144, 842 - 144));
    assert_eq!(l.feedback, Feedback::new());
}

#[test]
fn typeset_empty_source() {
    let t = Typesetter::new(FontLoader::new(6));
    let r = t.typeset("").unwrap();
    assert_eq!(r.output.len(), 1);
    assert!(r.output[0].actions.is_empty());
    assert_eq!(r.output[0].dimensions, Size::new(451, 698));
    assert_eq!(r.feedback, Feedback::new());
}

fn small_pages() -> Typesetter {
    let mut t = Typesetter::new(FontLoader::new(10));
    t.set_page_style(PageStyle { size: Size::new(120, 60), margins: Margins::uniform(10) });
    t.set_text_style(TextStyle { line_height: 10, word_spacing: 10, paragraph_spacing: 0 });
    t
}

#[test]
fn exactly_two_pages() {
    // A line of 100 holds one word of 6 characters; a page of 40 holds four lines.
    let t = small_pages();
    let src = "aaaaaa bbbbbb cccccc dddddd eeeeee ffffff gggggg hhhhhh";
    let r = t.typeset(src).unwrap();
    assert_eq!(r.output.len(), 2);
    assert_eq!(r.output[0].actions.len(), 4);
    assert_eq!(r.output[1].actions.len(), 4);
    assert_eq!(r.output[0].dimensions, Size::new(100, 40));
    assert_eq!(r.output[1].dimensions, Size::new(100, 40));
    assert!(r.feedback.diagnostics.is_empty());
}

#[test]
fn typeset_feedback_is_parse_then_layout() {
    let t = small_pages();
    let src = "aaaaaaaaaaaa b";
    let parsed = t.parse(src);
    let laid = t.layout(&parsed.output).unwrap();
    let whole = t.typeset(src).unwrap();
    assert_eq!(whole.feedback, Feedback::merge(parsed.feedback, laid.feedback));
    assert_eq!(whole.output, laid.output);
    assert_eq!(whole.feedback.diagnostics.len(), 1);
    assert_eq!(whole.feedback.diagnostics[0].span, Span::new(0, 12));
    assert_eq!(
        whole.feedback.decorations,
        vec![
            Decoration { kind: DecorationKind::Word, span: Span::new(0, 12) },
            Decoration { kind: DecorationKind::Word, span: Span::new(13, 14) },
        ]
    );
}

#[test]
fn typeset_is_deterministic() {
    let t = small_pages();
    let src = "one two three\n\nfour five six seven eight nine ten";
    assert_eq!(t.typeset(src), t.typeset(src));
}

#[test]
fn page_without_content_area_is_fatal() {
    let mut t = Typesetter::new(FontLoader::new(10));
    t.set_page_style(PageStyle { size: Size::new(100, 100), margins: Margins::uniform(50) });
    assert_eq!(t.typeset("a").unwrap_err(), LayoutError::InvalidSpace);
    assert_eq!(t.layout(&t.parse("").output).unwrap_err(), LayoutError::InvalidSpace);
}

#[test]
fn style_change_applies_to_later_calls() {
    let mut t = Typesetter::new(FontLoader::new(10));
    let before = t.typeset("x").unwrap();
    t.set_page_style(PageStyle { size: Size::new(200, 100), margins: Margins::uniform(0) });
    let after = t.typeset("x").unwrap();
    assert_eq!(before.output[0].dimensions, Size::new(451, 698));
    assert_eq!(after.output[0].dimensions, Size::new(200, 100));
}
