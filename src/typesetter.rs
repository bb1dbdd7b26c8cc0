//! The pipeline that turns source text into laid out pages.
use vstd::prelude::*;
use vstd::string::StringSliceAdditionalSpecFns;
use crate::feedback::{Feedback, Pass};
use crate::geom::{Alignment, Dir, LayoutAlign, LayoutAxes, LayoutExpansion, LayoutSpace};
use crate::layout::{box_matches, run, diag_spans, diags_are, lemma_flat_diags_in_nodes, laid_out, layout_nodes, pages_are, Env, LayoutContext, LayoutError, MultiLayout};
use crate::style::{FontLoader, LayoutStyle, PageStyle, TextStyle};
use crate::syntax::{decorations_of, parse, parsed_node, parsed_prefix, SyntaxTree};

verus! {

/// Transforms source text into laid out pages, with a base style that can
/// be changed between calls.
#[derive(Debug, Clone, PartialEq, Eq)]
pub struct Typesetter {
    loader: FontLoader,
    style: LayoutStyle,
}

impl Typesetter {
    pub closed spec fn loader_spec(self) -> FontLoader {
        self.loader
    }

    pub closed spec fn style_spec(self) -> LayoutStyle {
        self.style
    }

    /// The one space that a top-level layout starts with: the page, with
    /// its margins as padding, filled on both axes.
    pub open spec fn page_space(self) -> LayoutSpace {
        LayoutSpace {
            size: self.style_spec().page.size,
            padding: self.style_spec().page.margins,
            expansion: LayoutExpansion { horizontal: true, vertical: true },
        }
    }

    /// The flow of a top-level layout by `self`.
    pub open spec fn page_env(self) -> Env {
        Env {
            style: self.style_spec(),
            fonts: self.loader_spec(),
            space: self.page_space(),
            axes: LayoutAxes { primary: Dir::LTT, secondary: Dir::TTB },
            align: LayoutAlign { primary: Alignment::Start, secondary: Alignment::Start },
            paginates: true,
        }
    }

    /// Whether `ctx` is the context of a top-level layout by `self`.
    pub open spec fn is_page_context(self, ctx: LayoutContext) -> bool {
        &&& ctx.style == self.style_spec()
        &&& ctx.fonts == self.loader_spec()
        &&& ctx.spaces@ == seq![self.page_space()]
        &&& ctx.axes == (LayoutAxes { primary: Dir::LTT, secondary: Dir::TTB })
        &&& ctx.align == (LayoutAlign { primary: Alignment::Start, secondary: Alignment::Start })
        &&& ctx.repeat
        &&& !ctx.nested
    }

    /// A typesetter with the standard style.
    pub fn new(loader: FontLoader) -> (r: Typesetter)
        ensures
            r.loader_spec() == loader,
            r.style_spec().text == TextStyle::standard_spec(),
            r.style_spec().page == PageStyle::standard_spec(),
    {
        Typesetter { loader, style: LayoutStyle::standard() }
    }

    pub fn set_text_style(&mut self, style: TextStyle)
        ensures
            final(self).style_spec().text == style,
            final(self).style_spec().page == old(self).style_spec().page,
            final(self).loader_spec() == old(self).loader_spec(),
    {
        self.style.text = style;
    }

    pub fn set_page_style(&mut self, style: PageStyle)
        ensures
            final(self).style_spec().page == style,
            final(self).style_spec().text == old(self).style_spec().text,
            final(self).loader_spec() == old(self).loader_spec(),
    {
        self.style.page = style;
    }

    /// Parses `src` into a syntax tree whose spans start at offset zero.
    pub fn parse(&self, src: &str) -> (r: Pass<SyntaxTree>)
        requires
            src.spec_bytes().len() < u64::MAX,
        ensures
            parsed_prefix(src.spec_bytes(), r.output.nodes@, src.spec_bytes().len() as int),
            r.feedback.diagnostics@.len() == 0,
            r.feedback.decorations@ == decorations_of(r.output.nodes@),
    {
        parse(src)
    }

    /// Lays out `tree` on pages of the current page style, starting a new
    /// page whenever content overflows one. Fails only where the margins
    /// leave no content area.
    pub fn layout(&self, tree: &SyntaxTree) -> (r: Result<Pass<MultiLayout>, LayoutError>)
        ensures
            r is Err <==> !self.page_space().valid(),
            r matches Ok(p) ==> exists|ctx: LayoutContext|
                self.is_page_context(ctx) && laid_out(tree.nodes@, ctx, p),
            r matches Ok(p) ==> {
                &&& pages_are(tree.nodes@, self.page_env(), p.output@)
                &&& diags_are(tree.nodes@, self.page_env(), p.feedback.diagnostics@)
                &&& p.feedback.decorations@.len() == 0
            },
    {
        let ctx = LayoutContext {
            style: self.style,
            fonts: self.loader,
            spaces: vec![
                LayoutSpace {
                    size: self.style.page.size,
                    padding: self.style.page.margins,
                    expansion: LayoutExpansion::new(true, true),
                },
            ],
            axes: LayoutAxes::new(Dir::LTT, Dir::TTB),
            align: LayoutAlign::new(Alignment::Start, Alignment::Start),
            repeat: true,
            nested: false,
        };
        assert(ctx.spaces@ == seq![self.page_space()]);
        let r = layout_nodes(&tree.nodes, &ctx);
        assert(self.is_page_context(ctx));
        assert(ctx.env() == self.page_env());
        r
    }

    /// Parses and lays out `src`. The feedback is that of the parse
    /// followed by that of the layout.
    pub fn typeset(&self, src: &str) -> (r: Result<Pass<MultiLayout>, LayoutError>)
        requires
            src.spec_bytes().len() < u64::MAX,
        ensures
            r is Err <==> !self.page_space().valid(),
            r matches Ok(t) ==> exists|p: Pass<SyntaxTree>, l: Pass<MultiLayout>|
                {
                    &&& call_ensures(Typesetter::parse, (self, src), p)
                    &&& call_ensures(Typesetter::layout, (self, &p.output), Ok::<Pass<MultiLayout>, LayoutError>(l))
                    &&& t.output == l.output
                    &&& t.feedback.diagnostics@ == p.feedback.diagnostics@ + l.feedback.diagnostics@
                    &&& t.feedback.decorations@ == p.feedback.decorations@ + l.feedback.decorations@
                },
            r matches Ok(t) ==> exists|tree: SyntaxTree|
                {
                    &&& parsed_prefix(src.spec_bytes(), tree.nodes@, src.spec_bytes().len() as int)
                    &&& pages_are(tree.nodes@, self.page_env(), t.output@)
                    &&& diags_are(tree.nodes@, self.page_env(), t.feedback.diagnostics@)
                    &&& t.feedback.decorations@ == decorations_of(tree.nodes@)
                },
            r matches Ok(t) ==> forall|i: int| 0 <= i < t.feedback.diagnostics@.len() ==>
                (#[trigger] t.feedback.diagnostics@[i]).span.start <= t.feedback.diagnostics@[i].span.end
                <= src.spec_bytes().len(),
    {
        let parsed = self.parse(src);
        let layouted = self.layout(&parsed.output);
        match layouted {
            Ok(l) => {
                proof {
                    let nodes = parsed.output.nodes@;
                    assert forall|i: int| 0 <= i < nodes.len() implies !(#[trigger] nodes[i] is Group)
                        && nodes[i].span_spec().start <= nodes[i].span_spec().end <= src.spec_bytes().len() as u64 by {
                        assert(parsed_node(src.spec_bytes(), nodes[i]));
                    }
                    lemma_flat_diags_in_nodes(nodes, self.page_env(), src.spec_bytes().len() as u64);
                    assert forall|i: int| 0 <= i < l.feedback.diagnostics@.len() implies
                        (#[trigger] l.feedback.diagnostics@[i]).span.start <= l.feedback.diagnostics@[i].span.end
                        <= src.spec_bytes().len() by {
                        assert(l.feedback.diagnostics@[i].span == diag_spans(l.feedback.diagnostics@)[i]);
                    }
                }
                let feedback = Feedback::merge(parsed.feedback, l.feedback);
                Ok(Pass::new(l.output, feedback))
            },
            Err(e) => Err(e),
        }
    }
}

/// Two layouts of one tree by one typesetter agree: the same number of
/// boxes, each the same page of the flow (dimensions, units, positions),
/// and diagnostics at the same spans with the same severity and message.
pub proof fn lemma_layout_deterministic(
    t: Typesetter,
    tree: SyntaxTree,
    p1: Pass<MultiLayout>,
    p2: Pass<MultiLayout>,
)
    requires
        call_ensures(Typesetter::layout, (&t, &tree), Ok::<Pass<MultiLayout>, LayoutError>(p1)),
        call_ensures(Typesetter::layout, (&t, &tree), Ok::<Pass<MultiLayout>, LayoutError>(p2)),
    ensures
        p1.output@.len() == p2.output@.len(),
        forall|k: int| 0 <= k < p1.output@.len() ==> {
            let m = run(tree.nodes@, t.page_env()).all_pages(t.page_env())[k];
            box_matches(#[trigger] p1.output@[k], m) && box_matches(p2.output@[k], m)
                && p1.output@[k].dimensions == p2.output@[k].dimensions
                && p1.output@[k].actions@.len() == p2.output@[k].actions@.len()
        },
        diag_spans(p1.feedback.diagnostics@) == diag_spans(p2.feedback.diagnostics@),
        p1.feedback.diagnostics@.len() == p2.feedback.diagnostics@.len(),
        p1.feedback.decorations@ == p2.feedback.decorations@,
{
    assert(p1.feedback.diagnostics@.len() == diag_spans(p1.feedback.diagnostics@).len());
    assert(p2.feedback.diagnostics@.len() == diag_spans(p2.feedback.diagnostics@).len());
    assert(p1.feedback.decorations@ =~= p2.feedback.decorations@);
}

} // verus!
