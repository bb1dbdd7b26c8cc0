use typst::feedback::{Decoration, DecorationKind, Diagnostic, Severity, Span};
use typst::{Feedback, Pass};

fn diag(msg: &str, start: u64, end: u64) -> Diagnostic {
    Diagnostic { severity: Severity::Error, message: msg.to_string(), span: Span::new(start, end) }
}

fn deco(kind: DecorationKind, start: u64, end: u64) -> Decoration {
    Decoration { kind, span: Span::new(start, end) }
}

#[test]
fn new_feedback_is_empty() {
    let f = Feedback::new();
    assert!(f.diagnostics.is_empty());
    assert!(f.decorations.is_empty());
}

#[test]
fn merge_keeps_order_without_loss_or_duplicates() {
    let a = Feedback {
        diagnostics: vec![diag("a1", 0, 1), diag("a2", 2, 3)],
        decorations: vec![deco(DecorationKind::Word, 0, 1)],
    };
    let b = Feedback {
        diagnostics: vec![diag("b1", 4, 5), diag("a1", 0, 1)],
        decorations: vec![deco(DecorationKind::Group, 6, 9), deco(DecorationKind::Break, 1, 2)],
    };
    let m = Feedback::merge(a, b);
    let msgs: Vec<&str> = m.diagnostics.iter().map(|d| d.message.as_str()).collect();
    assert_eq!(msgs, vec!["a1", "a2", "b1", "a1"]);
    assert_eq!(
        m.decorations,
        vec![
            deco(DecorationKind::Word, 0, 1),
            deco(DecorationKind::Group, 6, 9),
            deco(DecorationKind::Break, 1, 2)
        ]
    );
}

#[test]
fn merge_of_empty_feedback() {
    let m = Feedback::merge(Feedback::new(), Feedback::new());
    assert_eq!(m, Feedback::new());
}

#[test]
fn extend_appends_after_existing() {
    let mut f = Feedback { diagnostics: vec![diag("x", 1, 2)], decorations: vec![] };
    f.extend(Feedback { diagnostics: vec![diag("y", 3, 4)], decorations: vec![deco(DecorationKind::Word, 3, 4)] });
    assert_eq!(f.diagnostics, vec![diag("x", 1, 2), diag("y", 3, 4)]);
    assert_eq!(f.decorations, vec![deco(DecorationKind::Word, 3, 4)]);
}

#[test]
fn extend_offset_moves_every_span_once() {
    let mut f = Feedback { diagnostics: vec![diag("kept", 1, 2)], decorations: vec![] };
    let more = Feedback {
        diagnostics: vec![diag("m1", 0, 3), diag("m2", 5, 7)],
        decorations: vec![deco(DecorationKind::Word, 2, 4)],
    };
    f.extend_offset(more, 10);
    assert_eq!(f.diagnostics, vec![diag("kept", 1, 2), diag("m1", 10, 13), diag("m2", 15, 17)]);
    assert_eq!(f.decorations, vec![deco(DecorationKind::Word, 12, 14)]);
}

#[test]
fn extend_offset_by_zero_is_extend() {
    let more = Feedback { diagnostics: vec![diag("m", 4, 8)], decorations: vec![deco(DecorationKind::Break, 4, 8)] };
    let mut a = Feedback::new();
    let mut b = Feedback::new();
    a.extend_offset(more.clone(), 0);
    b.extend(more);
    assert_eq!(a, b);
}

#[test]
fn fits_offset_detects_overflow() {
    let f = Feedback { diagnostics: vec![diag("m", 4, u64::MAX - 1)], decorations: vec![] };
    assert!(f.fits_offset(1));
    assert!(!f.fits_offset(2));
}

#[test]
fn span_offset() {
    assert_eq!(Span::new(3, 9).offset(4), Span::new(7, 13));
}

#[test]
fn pass_map_changes_only_output() {
    let fb = Feedback { diagnostics: vec![diag("d", 0, 1)], decorations: vec![deco(DecorationKind::Word, 0, 1)] };
    let p = Pass::new(21u32, fb.clone());
    let q = p.map(|x| format!("{}", x * 2));
    assert_eq!(q.output, "42");
    assert_eq!(q.feedback, fb);
}
