//! Feedback gathered during a pass: diagnostics and decorations, each tagged
//! with a span into the top-level source, and the `Pass` that pairs a result
//! with its feedback.
use vstd::prelude::*;

verus! {

/// A byte offset into the top-level source.
pub type Pos = u64;

/// A range of byte offsets into the source, `start` inclusive, `end` exclusive.
#[derive(Debug, Clone, Copy, PartialEq, Eq, Structural)]
pub struct Span {
    pub start: Pos,
    pub end: Pos,
}

impl Span {
    pub fn new(start: Pos, end: Pos) -> (r: Span)
        ensures
            r.start == start,
            r.end == end,
    {
        Span { start, end }
    }

    /// Whether this span can be moved by `offset` without leaving `u64`.
    pub open spec fn can_offset(self, offset: Pos) -> bool {
        self.start + offset <= u64::MAX && self.end + offset <= u64::MAX
    }

    pub open spec fn offset_spec(self, offset: Pos) -> Span {
        Span { start: (self.start + offset) as u64, end: (self.end + offset) as u64 }
    }

    /// Moves the span by `offset` bytes.
    pub fn offset(self, offset: Pos) -> (r: Span)
        requires
            self.can_offset(offset),
        ensures
            r == self.offset_spec(offset),
    {
        Span { start: self.start + offset, end: self.end + offset }
    }
}

#[derive(Debug, Clone, Copy, PartialEq, Eq, Structural)]
pub enum Severity {
    Error,
    Warning,
}

/// A message about a part of the source.
#[derive(Debug, Clone, PartialEq, Eq)]
pub struct Diagnostic {
    pub severity: Severity,
    pub message: String,
    pub span: Span,
}

/// What kind of thing a decorated piece of source is, for highlighting.
#[derive(Debug, Clone, Copy, PartialEq, Eq, Structural)]
pub enum DecorationKind {
    Word,
    Break,
    Group,
}

/// A semantic highlight of a part of the source.
#[derive(Debug, Clone, Copy, PartialEq, Eq, Structural)]
pub struct Decoration {
    pub kind: DecorationKind,
    pub span: Span,
}

impl Diagnostic {
    pub open spec fn offset_spec(self, offset: Pos) -> Diagnostic {
        Diagnostic { span: self.span.offset_spec(offset), ..self }
    }
}

impl Decoration {
    pub open spec fn offset_spec(self, offset: Pos) -> Decoration {
        Decoration { span: self.span.offset_spec(offset), ..self }
    }
}

/// Every diagnostic of `ds`, moved by `offset`.
pub open spec fn offset_diagnostics(ds: Seq<Diagnostic>, offset: Pos) -> Seq<Diagnostic> {
    ds.map_values(|d: Diagnostic| d.offset_spec(offset))
}

/// Every decoration of `ds`, moved by `offset`.
pub open spec fn offset_decorations(ds: Seq<Decoration>, offset: Pos) -> Seq<Decoration> {
    ds.map_values(|d: Decoration| d.offset_spec(offset))
}

/// Diagnostics and decorations, in the order in which they were recorded.
#[derive(Debug, Clone, PartialEq, Eq)]
pub struct Feedback {
    pub diagnostics: Vec<Diagnostic>,
    pub decorations: Vec<Decoration>,
}

impl Feedback {
    /// Whether every span of the feedback can be moved by `offset`.
    pub open spec fn can_offset(self, offset: Pos) -> bool {
        &&& forall|i: int| 0 <= i < self.diagnostics@.len()
            ==> (#[trigger] self.diagnostics@[i]).span.can_offset(offset)
        &&& forall|i: int| 0 <= i < self.decorations@.len()
            ==> (#[trigger] self.decorations@[i]).span.can_offset(offset)
    }

    /// Whether every span of the feedback can be moved by `offset`.
    pub fn fits_offset(&self, offset: Pos) -> (r: bool)
        ensures
            r == self.can_offset(offset),
    {
        let mut i: usize = 0;
        while i < self.diagnostics.len()
            invariant
                i <= self.diagnostics@.len(),
                forall|k: int| 0 <= k < i ==> (#[trigger] self.diagnostics@[k]).span.can_offset(
                    offset,
                ),
            decreases self.diagnostics@.len() - i,
        {
            let s = self.diagnostics[i].span;
            if s.start > u64::MAX - offset || s.end > u64::MAX - offset {
                return false;
            }
            i = i + 1;
        }
        let mut j: usize = 0;
        while j < self.decorations.len()
            invariant
                j <= self.decorations@.len(),
                forall|k: int| 0 <= k < self.diagnostics@.len() ==> (#[trigger] self.diagnostics@[k]).span.can_offset(
                    offset,
                ),
                forall|k: int| 0 <= k < j ==> (#[trigger] self.decorations@[k]).span.can_offset(
                    offset,
                ),
            decreases self.decorations@.len() - j,
        {
            let s = self.decorations[j].span;
            if s.start > u64::MAX - offset || s.end > u64::MAX - offset {
                return false;
            }
            j = j + 1;
        }
        true
    }

    pub open spec fn is_empty(self) -> bool {
        self.diagnostics@.len() == 0 && self.decorations@.len() == 0
    }

    /// Creates feedback with no diagnostics and no decorations.
    pub fn new() -> (r: Feedback)
        ensures
            r.is_empty(),
    {
        Feedback { diagnostics: Vec::new(), decorations: Vec::new() }
    }

    /// The feedback of `a` followed by that of `b`.
    pub fn merge(a: Feedback, b: Feedback) -> (r: Feedback)
        ensures
            r.diagnostics@ == a.diagnostics@ + b.diagnostics@,
            r.decorations@ == a.decorations@ + b.decorations@,
    {
        let mut a = a;
        a.extend(b);
        a
    }

    /// Appends `other` after the entries already held.
    pub fn extend(&mut self, other: Feedback)
        ensures
            final(self).diagnostics@ == old(self).diagnostics@ + other.diagnostics@,
            final(self).decorations@ == old(self).decorations@ + other.decorations@,
    {
        let mut other = other;
        self.diagnostics.append(&mut other.diagnostics);
        self.decorations.append(&mut other.decorations);
    }

    /// Appends `more`, whose spans are relative to `offset`, after moving
    /// each of its spans by `offset` into the coordinates of this feedback.
    pub fn extend_offset(&mut self, more: Feedback, offset: Pos)
        requires
            more.can_offset(offset),
        ensures
            final(self).diagnostics@ == old(self).diagnostics@ + offset_diagnostics(
                more.diagnostics@,
                offset,
            ),
            final(self).decorations@ == old(self).decorations@ + offset_decorations(
                more.decorations@,
                offset,
            ),
            forall|i: int|
                0 <= i < more.diagnostics@.len() ==> {
                    let d = #[trigger] final(self).diagnostics@[old(self).diagnostics@.len() + i];
                    &&& d.span.start == more.diagnostics@[i].span.start + offset
                    &&& d.span.end == more.diagnostics@[i].span.end + offset
                    &&& d.message == more.diagnostics@[i].message
                    &&& d.severity == more.diagnostics@[i].severity
                },
            forall|i: int|
                0 <= i < more.decorations@.len() ==> {
                    let d = #[trigger] final(self).decorations@[old(self).decorations@.len() + i];
                    &&& d.span.start == more.decorations@[i].span.start + offset
                    &&& d.span.end == more.decorations@[i].span.end + offset
                    &&& d.kind == more.decorations@[i].kind
                },
    {
        let ghost start_diags = self.diagnostics@;
        let ghost start_decos = self.decorations@;
        let mut i: usize = 0;
        while i < more.diagnostics.len()
            invariant
                more.can_offset(offset),
                i <= more.diagnostics@.len(),
                self.diagnostics@ == start_diags + offset_diagnostics(
                    more.diagnostics@.subrange(0, i as int),
                    offset,
                ),
                self.decorations@ == start_decos,
            decreases more.diagnostics@.len() - i,
        {
            let d = &more.diagnostics[i];
            let moved = Diagnostic {
                severity: d.severity,
                message: d.message.clone(),
                span: d.span.offset(offset),
            };
            self.diagnostics.push(moved);
            proof {
                assert(more.diagnostics@.subrange(0, i + 1) == more.diagnostics@.subrange(
                    0,
                    i as int,
                ).push(more.diagnostics@[i as int]));
            }
            i = i + 1;
        }
        assert(more.diagnostics@.subrange(0, i as int) == more.diagnostics@);
        let mut j: usize = 0;
        while j < more.decorations.len()
            invariant
                more.can_offset(offset),
                j <= more.decorations@.len(),
                self.diagnostics@ == start_diags + offset_diagnostics(more.diagnostics@, offset),
                self.decorations@ == start_decos + offset_decorations(
                    more.decorations@.subrange(0, j as int),
                    offset,
                ),
            decreases more.decorations@.len() - j,
        {
            let d = more.decorations[j];
            let moved = Decoration { kind: d.kind, span: d.span.offset(offset) };
            self.decorations.push(moved);
            proof {
                assert(more.decorations@.subrange(0, j + 1) == more.decorations@.subrange(
                    0,
                    j as int,
                ).push(more.decorations@[j as int]));
            }
            j = j + 1;
        }
        assert(more.decorations@.subrange(0, j as int) == more.decorations@);
    }
}

/// The result of a pass: its output and the feedback gathered on the way.
#[derive(Debug, Clone, PartialEq, Eq)]
pub struct Pass<T> {
    pub output: T,
    pub feedback: Feedback,
}

impl<T> Pass<T> {
    pub fn new(output: T, feedback: Feedback) -> (r: Pass<T>)
        ensures
            r.output == output,
            r.feedback == feedback,
    {
        Pass { output, feedback }
    }

    /// Transforms the output with `f` and keeps the feedback as it is.
    pub fn map<F, U>(self, f: F) -> (r: Pass<U>)
        where
            F: FnOnce(T) -> U,
        requires
            f.requires((self.output,)),
        ensures
            f.ensures((self.output,), r.output),
            r.feedback == self.feedback,
    {
        Pass { output: f(self.output), feedback: self.feedback }
    }
}

} // verus!
