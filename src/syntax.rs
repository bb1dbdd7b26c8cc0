//! The syntax tree and the parser that builds it from source text.
//!
//! Source text is a sequence of words separated by whitespace. A run of
//! whitespace that holds two or more line feeds ends a paragraph.
use vstd::prelude::*;
use vstd::string::StringSliceAdditionalSpecFns;
use crate::feedback::{Decoration, DecorationKind, Feedback, Pass, Span};
use crate::geom::{LayoutAlign, Size};

verus! {

/// A node of the syntax tree, tagged with its span in the source.
#[derive(Debug, PartialEq, Eq)]
pub enum Node {
    /// A word of `chars` characters.
    Text { span: Span, chars: u64 },
    /// Whitespace between words.
    Space { span: Span },
    /// The end of a paragraph.
    Parbreak { span: Span },
    /// A region of fixed `size` whose content is laid out on its own, with
    /// `align` in place of the surrounding alignment where it is set. The
    /// spans inside `body` are relative to `span.start`.
    Group { span: Span, size: Size, align: Option<LayoutAlign>, body: Vec<Node> },
}

impl Node {
    pub open spec fn span_spec(self) -> Span {
        match self {
            Node::Text { span, .. } => span,
            Node::Space { span } => span,
            Node::Parbreak { span } => span,
            Node::Group { span, .. } => span,
        }
    }

    pub fn span(&self) -> (r: Span)
        ensures
            r == self.span_spec(),
    {
        match self {
            Node::Text { span, .. } => *span,
            Node::Space { span } => *span,
            Node::Parbreak { span } => *span,
            Node::Group { span, .. } => *span,
        }
    }
}

/// A parsed document: the top-level nodes, in source order.
#[derive(Debug, PartialEq, Eq)]
pub struct SyntaxTree {
    pub nodes: Vec<Node>,
}

impl SyntaxTree {
    pub fn new() -> (r: SyntaxTree)
        ensures
            r.nodes@.len() == 0,
    {
        SyntaxTree { nodes: Vec::new() }
    }
}

pub open spec fn is_space_byte(b: u8) -> bool {
    b == 32 || b == 9 || b == 10 || b == 13
}

/// Whether `b` starts a character in UTF-8 (is no continuation byte).
pub open spec fn is_char_start(b: u8) -> bool {
    b < 0x80 || b >= 0xC0
}

/// The number of characters in the UTF-8 bytes `s`.
pub open spec fn char_count(s: Seq<u8>) -> nat
    decreases s.len(),
{
    if s.len() == 0 {
        0
    } else {
        char_count(s.drop_last()) + if is_char_start(s.last()) {
            1nat
        } else {
            0nat
        }
    }
}

pub open spec fn all_space(s: Seq<u8>) -> bool {
    forall|k: int| 0 <= k < s.len() ==> is_space_byte(#[trigger] s[k])
}

pub open spec fn no_space(s: Seq<u8>) -> bool {
    forall|k: int| 0 <= k < s.len() ==> !is_space_byte(#[trigger] s[k])
}

/// Whether `s` holds at least two line feeds.
pub open spec fn two_line_feeds(s: Seq<u8>) -> bool {
    exists|a: int, b: int| 0 <= a < b < s.len() && s[a] == 10 && s[b] == 10
}

pub open spec fn span_bytes(src: Seq<u8>, span: Span) -> Seq<u8> {
    src.subrange(span.start as int, span.end as int)
}

/// Whether `n` is a node that the parser makes for its span of `src`.
pub open spec fn parsed_node(src: Seq<u8>, n: Node) -> bool {
    &&& n.span_spec().start < n.span_spec().end <= src.len()
    &&& match n {
        Node::Text { span, chars } => no_space(span_bytes(src, span)) && chars == char_count(
            span_bytes(src, span),
        ),
        Node::Space { span } => all_space(span_bytes(src, span)) && !two_line_feeds(
            span_bytes(src, span),
        ),
        Node::Parbreak { span } => all_space(span_bytes(src, span)) && two_line_feeds(
            span_bytes(src, span),
        ),
        Node::Group { .. } => false,
    }
}

/// `nodes` split `src[0..upto]` into maximal runs of words and of
/// whitespace, in order and without gaps.
pub open spec fn parsed_prefix(src: Seq<u8>, nodes: Seq<Node>, upto: int) -> bool {
    &&& nodes.len() == 0 <==> upto == 0
    &&& nodes.len() > 0 ==> nodes[0].span_spec().start == 0 && nodes.last().span_spec().end
        == upto
    &&& forall|i: int| 0 <= i < nodes.len() ==> parsed_node(src, #[trigger] nodes[i])
    &&& forall|i: int|
        0 <= i < nodes.len() - 1 ==> (#[trigger] nodes[i]).span_spec().end == nodes[i
            + 1].span_spec().start
    &&& forall|i: int|
        0 <= i < nodes.len() - 1 ==> ((#[trigger] nodes[i]) is Text) != (nodes[i + 1] is Text)
}

/// The end of the run of whitespace that starts at `start`, and whether the
/// run holds two line feeds.
fn scan_space(bytes: &[u8], start: usize) -> (r: (usize, bool))
    requires
        start < bytes@.len(),
        is_space_byte(bytes@[start as int]),
    ensures
        start < r.0 <= bytes@.len(),
        all_space(bytes@.subrange(start as int, r.0 as int)),
        r.1 == two_line_feeds(bytes@.subrange(start as int, r.0 as int)),
        r.0 < bytes@.len() ==> !is_space_byte(bytes@[r.0 as int]),
{
    let ghost s = bytes@;
    let n = bytes.len();
    let mut i = start;
    let mut first_lf: Option<usize> = None;
    let mut breaks = false;
    while i < n && is_space(bytes[i])
        invariant
            n == s.len(),
            s == bytes@,
            start < n,
            is_space_byte(s[start as int]),
            start <= i <= n,
            all_space(s.subrange(start as int, i as int)),
            breaks == two_line_feeds(s.subrange(start as int, i as int)),
            !breaks ==> match first_lf {
                Some(a) => start <= a < i && s[a as int] == 10 && forall|k: int|
                    start <= k < i && s[k] == 10 ==> k == a,
                None => forall|k: int| start <= k < i ==> s[k] != 10,
            },
        decreases n - i,
    {
        let ghost old_sub = s.subrange(start as int, i as int);
        let ghost new_sub = s.subrange(start as int, i + 1);
        assert(new_sub == old_sub.push(s[i as int]));
        if bytes[i] == 10 {
            if !breaks {
                match first_lf {
                    Some(a) => {
                        breaks = true;
                        assert(new_sub[a - start] == 10 && new_sub[i - start] == 10);
                    },
                    None => {
                        first_lf = Some(i);
                    },
                }
            }
        }
        proof {
            if two_line_feeds(old_sub) {
                let (a, b) = choose|a: int, b: int|
                    0 <= a < b < old_sub.len() && old_sub[a] == 10 && old_sub[b] == 10;
                assert(new_sub[a] == 10 && new_sub[b] == 10);
            }
            if !breaks {
                if two_line_feeds(new_sub) {
                    let (a, b) = choose|a: int, b: int|
                        0 <= a < b < new_sub.len() && new_sub[a] == 10 && new_sub[b] == 10;
                    assert(s[start + a] == 10 && s[start + b] == 10);
                }
            }
        }
        i = i + 1;
    }
    (i, breaks)
}

/// The end of the word that starts at `start`, and its number of characters.
fn scan_word(bytes: &[u8], start: usize) -> (r: (usize, u64))
    requires
        start < bytes@.len() < u64::MAX,
        !is_space_byte(bytes@[start as int]),
    ensures
        start < r.0 <= bytes@.len(),
        no_space(bytes@.subrange(start as int, r.0 as int)),
        r.1 == char_count(bytes@.subrange(start as int, r.0 as int)),
        r.0 < bytes@.len() ==> is_space_byte(bytes@[r.0 as int]),
{
    let ghost s = bytes@;
    let n = bytes.len();
    let mut i = start;
    let mut chars: u64 = 0;
    while i < n && !is_space(bytes[i])
        invariant
            n == s.len(),
            s == bytes@,
            n < u64::MAX,
            start < n,
            !is_space_byte(s[start as int]),
            start <= i <= n,
            no_space(s.subrange(start as int, i as int)),
            chars == char_count(s.subrange(start as int, i as int)),
            chars <= i - start,
        decreases n - i,
    {
        let ghost new_sub = s.subrange(start as int, i + 1);
        assert(new_sub.drop_last() == s.subrange(start as int, i as int));
        if bytes[i] < 0x80 || bytes[i] >= 0xC0 {
            chars = chars + 1;
        }
        i = i + 1;
    }
    (i, chars)
}

/// The highlight of node `n`, if it has one.
pub open spec fn decoration_of(n: Node) -> Seq<Decoration> {
    match n {
        Node::Text { span, .. } => seq![Decoration { kind: DecorationKind::Word, span }],
        Node::Parbreak { span } => seq![Decoration { kind: DecorationKind::Break, span }],
        _ => Seq::empty(),
    }
}

/// The highlights of `nodes`, in order.
pub open spec fn decorations_of(nodes: Seq<Node>) -> Seq<Decoration>
    decreases nodes.len(),
{
    if nodes.len() == 0 {
        Seq::empty()
    } else {
        decorations_of(nodes.drop_last()) + decoration_of(nodes.last())
    }
}

/// Splits `src` into words, spaces and paragraph breaks, and highlights
/// each word and each paragraph break.
pub fn parse(src: &str) -> (r: Pass<SyntaxTree>)
    requires
        src.spec_bytes().len() < u64::MAX,
    ensures
        parsed_prefix(src.spec_bytes(), r.output.nodes@, src.spec_bytes().len() as int),
        r.feedback.diagnostics@.len() == 0,
        r.feedback.decorations@ == decorations_of(r.output.nodes@),
{
    let bytes = src.as_bytes();
    let n = bytes.len();
    let ghost s = bytes@;
    let mut nodes: Vec<Node> = Vec::new();
    let mut feedback = Feedback::new();
    let mut i: usize = 0;
    while i < n
        invariant
            feedback.diagnostics@.len() == 0,
            feedback.decorations@ == decorations_of(nodes@),
            n == s.len(),
            s == bytes@,
            n < u64::MAX,
            i <= n,
            parsed_prefix(s, nodes@, i as int),
            0 < i < n ==> is_space_byte(s[i - 1]) != is_space_byte(s[i as int]),
        decreases n - i,
    {
        let start = i;
        let ghost before = nodes@;
        if is_space(bytes[i]) {
            let (end, breaks) = scan_space(bytes, start);
            i = end;
            let span = Span { start: start as u64, end: i as u64 };
            if breaks {
                nodes.push(Node::Parbreak { span });
                feedback.decorations.push(Decoration { kind: DecorationKind::Break, span });
            } else {
                nodes.push(Node::Space { span });
            }
        } else {
            let (end, chars) = scan_word(bytes, start);
            i = end;
            let span = Span { start: start as u64, end: i as u64 };
            nodes.push(Node::Text { span, chars });
            feedback.decorations.push(Decoration { kind: DecorationKind::Word, span });
        }
        proof {
            assert(s.subrange(start as int, i as int)[i - 1 - start] == s[i - 1]);
            assert(nodes@.drop_last() == before);
            assert(feedback.decorations@ == decorations_of(before) + decoration_of(nodes@.last()));
            lemma_push_node(s, before, nodes@, start as int, i as int);
        }
    }
    Pass { output: SyntaxTree { nodes }, feedback }
}

proof fn lemma_push_node(s: Seq<u8>, before: Seq<Node>, after: Seq<Node>, start: int, end: int)
    requires
        0 <= start < end <= s.len() < u64::MAX,
        parsed_prefix(s, before, start),
        0 < start ==> is_space_byte(s[start - 1]) != is_space_byte(s[start]),
        after.len() == before.len() + 1,
        after.drop_last() == before,
        parsed_node(s, after.last()),
        after.last().span_spec() == (Span { start: start as u64, end: end as u64 }),
    ensures
        parsed_prefix(s, after, end),
{
    if before.len() == 0 {
        assert(after[0] == after.last());
    } else {
        assert(after[0] == before[0]);
    }
    assert forall|j: int| 0 <= j < after.len() implies parsed_node(s, #[trigger] after[j]) by {
        if j < before.len() {
            assert(after[j] == before[j]);
        }
    }
    assert forall|j: int| 0 <= j < after.len() - 1 implies (
    #[trigger] after[j]).span_spec().end == after[j + 1].span_spec().start by {
        assert(after[j] == before[j]);
    }
    assert forall|j: int| 0 <= j < after.len() - 1 implies ((#[trigger] after[j]) is Text) != (
    after[j + 1] is Text) by {
        assert(after[j] == before[j]);
        if j + 1 == before.len() {
            let last = before.last();
            let ls = last.span_spec();
            assert(span_bytes(s, ls)[ls.end - 1 - ls.start] == s[start - 1]);
            let ns = after[j + 1].span_spec();
            assert(span_bytes(s, ns)[0] == s[start]);
        } else {
            assert(after[j + 1] == before[j + 1]);
        }
    }
}

fn is_space(b: u8) -> (r: bool)
    ensures
        r == is_space_byte(b),
{
    b == 32 || b == 9 || b == 10 || b == 13
}

} // verus!
