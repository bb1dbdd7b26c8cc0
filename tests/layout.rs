use typst::feedback::Span;
use typst::geom::{Alignment, Dir, LayoutAlign, LayoutAxes, LayoutExpansion, LayoutSpace, Margins, Size};
use typst::layout::{layout_nodes, LayoutAction, LayoutContext, LayoutError};
use typst::style::{FontLoader, LayoutStyle, TextStyle};
use typst::syntax::Node;

fn style(line_height: u64) -> LayoutStyle {
    let mut s = LayoutStyle::standard();
    s.text = TextStyle { line_height, word_spacing: 0, paragraph_spacing: 0 };
    s
}

fn ctx(size: Size, padding: Margins, expansion: LayoutExpansion, repeat: bool, nested: bool) -> LayoutContext {
    LayoutContext {
        style: style(10),
        fonts: FontLoader::new(10),
        spaces: vec![LayoutSpace { size, padding, expansion }],
        axes: LayoutAxes::new(Dir::LTT, Dir::TTB),
        align: LayoutAlign::new(Alignment::Start, Alignment::Start),
        repeat,
        nested,
    }
}

fn word(start: u64, chars: u64) -> Node {
    Node::Text { span: Span::new(start, start + chars), chars }
}

#[test]
fn empty_tree_gives_one_full_box() {
    let c = ctx(Size::new(100, 200), Margins::new(10, 20, 30, 40), LayoutExpansion::new(true, true), true, false);
    let p = layout_nodes(&vec![], &c).unwrap();
    assert_eq!(p.output.len(), 1);
    assert!(p.output[0].actions.is_empty());
    assert_eq!(p.output[0].dimensions, Size::new(60, 140));
    assert!(p.feedback.diagnostics.is_empty());
    assert!(p.feedback.decorations.is_empty());
}

#[test]
fn empty_tree_without_expansion_shrinks() {
    let c = ctx(Size::new(100, 200), Margins::uniform(0), LayoutExpansion::new(false, false), true, false);
    let p = layout_nodes(&vec![], &c).unwrap();
    assert_eq!(p.output.len(), 1);
    assert_eq!(p.output[0].dimensions, Size::new(0, 0));
}

#[test]
fn invalid_space_is_fatal() {
    let c = ctx(Size::new(100, 200), Margins::new(50, 0, 50, 0), LayoutExpansion::new(true, true), true, false);
    assert_eq!(layout_nodes(&vec![word(0, 1)], &c).unwrap_err(), LayoutError::InvalidSpace);
}

#[test]
fn words_wrap_onto_next_line() {
    // Two words of 60 do not share a line of 100.
    let c = ctx(Size::new(100, 100), Margins::uniform(0), LayoutExpansion::new(false, false), true, false);
    let p = layout_nodes(&vec![word(0, 6), Node::Space { span: Span::new(6, 7) }, word(7, 6)], &c).unwrap();
    assert_eq!(p.output.len(), 1);
    let b = &p.output[0];
    assert_eq!(b.dimensions, Size::new(60, 20));
    match (&b.actions[0], &b.actions[1]) {
        (LayoutAction::Text { at: a0, .. }, LayoutAction::Text { at: a1, extent, span }) => {
            assert_eq!(*a0, Size::new(0, 0));
            assert_eq!(*a1, Size::new(0, 10));
            assert_eq!(*extent, Size::new(60, 10));
            assert_eq!(*span, Span::new(7, 13));
        }
        _ => panic!("expected two words"),
    }
}

#[test]
fn overflow_at_top_level_starts_two_pages() {
    // Each line holds one word and each page two lines: three words take two pages.
    let c = ctx(Size::new(100, 20), Margins::uniform(0), LayoutExpansion::new(true, true), true, false);
    let nodes = vec![word(0, 6), word(7, 6), word(14, 6)];
    let p = layout_nodes(&nodes, &c).unwrap();
    assert_eq!(p.output.len(), 2);
    assert_eq!(p.output[0].actions.len(), 2);
    assert_eq!(p.output[1].actions.len(), 1);
    assert_eq!(p.output[0].dimensions, p.output[1].dimensions);
    assert_eq!(p.output[1].dimensions, Size::new(100, 20));
    assert!(p.feedback.diagnostics.is_empty());
}

#[test]
fn many_pages_have_the_same_shape() {
    let c = ctx(Size::new(100, 30), Margins::new(5, 5, 5, 5), LayoutExpansion::new(true, true), true, false);
    let nodes: Vec<Node> = (0..10).map(|i| word(i * 10, 9)).collect();
    let p = layout_nodes(&nodes, &c).unwrap();
    assert_eq!(p.output.len(), 5);
    for b in &p.output {
        assert_eq!(b.dimensions, Size::new(90, 20));
    }
    assert_eq!(p.output.iter().map(|b| b.actions.len()).sum::<usize>(), 10);
}

#[test]
fn nested_overflow_clips_with_diagnostic() {
    let c = ctx(Size::new(100, 20), Margins::uniform(0), LayoutExpansion::new(true, true), true, true);
    let nodes = vec![word(0, 6), word(7, 6), word(14, 6)];
    let p = layout_nodes(&nodes, &c).unwrap();
    assert_eq!(p.output.len(), 1);
    assert_eq!(p.output[0].actions.len(), 2);
    assert_eq!(p.output[0].dimensions, Size::new(100, 20));
    assert_eq!(p.feedback.diagnostics.len(), 1);
    assert_eq!(p.feedback.diagnostics[0].span, Span::new(14, 20));
}

#[test]
fn no_repeat_does_not_paginate() {
    let c = ctx(Size::new(100, 20), Margins::uniform(0), LayoutExpansion::new(true, true), false, false);
    let p = layout_nodes(&vec![word(0, 6), word(7, 6), word(14, 6)], &c).unwrap();
    assert_eq!(p.output.len(), 1);
    assert_eq!(p.feedback.diagnostics.len(), 1);
}

#[test]
fn word_wider_than_page_is_reported() {
    let c = ctx(Size::new(50, 50), Margins::uniform(0), LayoutExpansion::new(true, true), true, false);
    let p = layout_nodes(&vec![word(3, 6)], &c).unwrap();
    assert_eq!(p.output.len(), 1);
    assert!(p.output[0].actions.is_empty());
    assert_eq!(p.feedback.diagnostics[0].span, Span::new(3, 9));
}

#[test]
fn group_feedback_is_offset_to_the_group() {
    // The group's body is 30 wide; its second word overflows it.
    let body = vec![word(0, 2), word(3, 2)];
    let group = Node::Group { span: Span::new(40, 60), size: Size::new(30, 10), align: None, body };
    let c = ctx(Size::new(100, 100), Margins::uniform(0), LayoutExpansion::new(true, true), true, false);
    let p = layout_nodes(&vec![word(0, 3), group], &c).unwrap();
    assert_eq!(p.output.len(), 1);
    assert_eq!(p.output[0].actions.len(), 2);
    match &p.output[0].actions[1] {
        LayoutAction::Child { at, span, layout } => {
            assert_eq!(*span, Span::new(40, 60));
            assert_eq!(*at, Size::new(30, 0));
            assert_eq!(layout.dimensions, Size::new(30, 10));
            assert_eq!(layout.actions.len(), 1);
        }
        _ => panic!("expected the group"),
    }
    assert_eq!(p.feedback.diagnostics.len(), 1);
    assert_eq!(p.feedback.diagnostics[0].span, Span::new(43, 45));
}

#[test]
fn empty_group_is_reported() {
    let group = Node::Group { span: Span::new(2, 5), size: Size::new(0, 10), align: None, body: vec![] };
    let c = ctx(Size::new(100, 100), Margins::uniform(0), LayoutExpansion::new(true, true), true, false);
    let p = layout_nodes(&vec![group], &c).unwrap();
    assert!(p.output[0].actions.is_empty());
    assert_eq!(p.feedback.diagnostics[0].span, Span::new(2, 5));
}

#[test]
fn reversed_axes_place_from_the_far_side() {
    let mut c = ctx(Size::new(100, 50), Margins::uniform(0), LayoutExpansion::new(true, true), true, false);
    c.axes = LayoutAxes::new(Dir::RTL, Dir::BTT);
    let p = layout_nodes(&vec![word(0, 2)], &c).unwrap();
    match &p.output[0].actions[0] {
        LayoutAction::Text { at, .. } => assert_eq!(*at, Size::new(80, 40)),
        _ => panic!("expected a word"),
    }
}

#[test]
fn vertical_primary_axis_swaps_extents() {
    let mut c = ctx(Size::new(100, 50), Margins::uniform(0), LayoutExpansion::new(false, false), true, false);
    c.axes = LayoutAxes::new(Dir::TTB, Dir::LTT);
    let p = layout_nodes(&vec![word(0, 3)], &c).unwrap();
    assert_eq!(p.output[0].dimensions, Size::new(10, 30));
}

#[test]
fn text_extent_saturates() {
    let f = FontLoader::new(7);
    assert_eq!(f.text_extent(6), 42);
    assert_eq!(f.text_extent(u64::MAX), u64::MAX);
}

fn first_at(p: &typst::Pass<typst::layout::MultiLayout>) -> Size {
    match &p.output[0].actions[0] {
        LayoutAction::Text { at, .. } => *at,
        LayoutAction::Child { at, .. } => *at,
    }
}

#[test]
fn center_and_end_alignment() {
    let mut c = ctx(Size::new(100, 50), Margins::uniform(0), LayoutExpansion::new(true, true), true, false);
    c.align = LayoutAlign::new(Alignment::Center, Alignment::End);
    let p = layout_nodes(&vec![word(0, 2)], &c).unwrap();
    assert_eq!(first_at(&p), Size::new(40, 40));
    c.align = LayoutAlign::new(Alignment::End, Alignment::Center);
    let p = layout_nodes(&vec![word(0, 2)], &c).unwrap();
    assert_eq!(first_at(&p), Size::new(80, 20));
}

#[test]
fn alignment_has_no_room_in_a_shrunk_box() {
    let mut c = ctx(Size::new(100, 50), Margins::uniform(0), LayoutExpansion::new(false, false), true, false);
    c.align = LayoutAlign::new(Alignment::End, Alignment::End);
    let p = layout_nodes(&vec![word(0, 2)], &c).unwrap();
    assert_eq!(p.output[0].dimensions, Size::new(20, 10));
    assert_eq!(first_at(&p), Size::new(0, 0));
}

#[test]
fn group_alignment_applies_only_inside_the_group() {
    let body = vec![word(0, 1)];
    let align = Some(LayoutAlign::new(Alignment::End, Alignment::End));
    let group = Node::Group { span: Span::new(5, 9), size: Size::new(30, 30), align, body };
    let c = ctx(Size::new(100, 100), Margins::uniform(0), LayoutExpansion::new(true, true), true, false);
    let p = layout_nodes(&vec![group, word(10, 1)], &c).unwrap();
    assert_eq!(p.output[0].actions.len(), 2);
    match &p.output[0].actions[0] {
        LayoutAction::Child { at, layout, .. } => {
            assert_eq!(*at, Size::new(0, 0));
            match &layout.actions[0] {
                LayoutAction::Text { at, .. } => assert_eq!(*at, Size::new(20, 20)),
                _ => panic!("expected a word"),
            }
        }
        _ => panic!("expected the group"),
    }
    match &p.output[0].actions[1] {
        LayoutAction::Text { at, .. } => assert_eq!(*at, Size::new(30, 0)),
        _ => panic!("expected a word"),
    }
}

#[test]
fn content_that_overflows_bounded_flow_paginates() {
    let nodes = vec![word(0, 6), Node::Parbreak { span: Span::new(6, 8) }, word(8, 6), word(15, 6)];
    let bounded = ctx(Size::new(100, 25), Margins::uniform(0), LayoutExpansion::new(true, true), false, false);
    let q = layout_nodes(&nodes, &bounded).unwrap();
    assert_eq!(q.output.len(), 1);
    assert_eq!(q.feedback.diagnostics.len(), 1);
    let paged = ctx(Size::new(100, 25), Margins::uniform(0), LayoutExpansion::new(true, true), true, false);
    let p = layout_nodes(&nodes, &paged).unwrap();
    assert_eq!(p.output.len(), 2);
    assert_eq!(p.output[0].actions.len() + p.output[1].actions.len(), 3);
    assert!(p.feedback.diagnostics.is_empty());
}
