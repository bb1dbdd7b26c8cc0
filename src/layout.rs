//! The recursive layout engine: places the nodes of a syntax tree into
//! layout spaces, starting a new page when content overflows the top-level
//! flow and clipping with a diagnostic where it cannot.
use vstd::prelude::*;
use crate::feedback::{Diagnostic, Feedback, Pass, Severity, Span};
use crate::geom::{Alignment, LayoutAlign, LayoutAxes, LayoutExpansion, LayoutSpace, Margins, Size};
use crate::style::{FontLoader, LayoutStyle};
use crate::syntax::Node;

verus! {

/// A piece of finished content, at a position relative to its box.
#[derive(Debug, PartialEq, Eq)]
pub enum LayoutAction {
    /// The word of the source at `span`, filling `extent`.
    Text { at: Size, extent: Size, span: Span },
    /// The bounded region of the group at `span`, laid out.
    Child { at: Size, span: Span, layout: LayoutBox },
}

/// A finished rectangle of content.
#[derive(Debug, PartialEq, Eq)]
pub struct LayoutBox {
    pub dimensions: Size,
    pub actions: Vec<LayoutAction>,
}

impl LayoutAction {
    /// The position of the action in its box.
    pub open spec fn at_spec(self) -> Size {
        match self {
            LayoutAction::Text { at, .. } => at,
            LayoutAction::Child { at, .. } => at,
        }
    }

    /// The size that the action covers.
    pub open spec fn extent_spec(self) -> Size {
        match self {
            LayoutAction::Text { extent, .. } => extent,
            LayoutAction::Child { layout, .. } => layout.dimensions,
        }
    }

    /// Whether the action lies inside a box of dimensions `d`.
    pub open spec fn within(self, d: Size) -> bool {
        &&& self.at_spec().x + self.extent_spec().x <= d.x
        &&& self.at_spec().y + self.extent_spec().y <= d.y
    }
}

/// How far content is moved along an axis under alignment `a`, where
/// `free` is the room that the content leaves in its box.
pub open spec fn align_offset(a: Alignment, free: u64) -> u64 {
    match a {
        Alignment::Start => 0,
        Alignment::Center => free / 2,
        Alignment::End => free,
    }
}

/// The offset of [`align_offset`].
fn offset_for(a: Alignment, free: u64) -> (r: u64)
    ensures
        r == align_offset(a, free),
        r <= free,
{
    match a {
        Alignment::Start => 0,
        Alignment::Center => free / 2,
        Alignment::End => free,
    }
}

/// The boxes of a layout call, one per page or region, in order.
pub type MultiLayout = Vec<LayoutBox>;

/// Why a layout call could not start.
#[derive(Debug, Clone, Copy, PartialEq, Eq, Structural)]
pub enum LayoutError {
    /// The first layout space has no content area of positive extent.
    InvalidSpace,
}

/// What a layout call works with.
#[derive(Debug, Clone, PartialEq, Eq)]
pub struct LayoutContext {
    pub style: LayoutStyle,
    pub fonts: FontLoader,
    /// The available spaces, the current one first.
    pub spaces: Vec<LayoutSpace>,
    pub axes: LayoutAxes,
    pub align: LayoutAlign,
    /// Whether overflow in this flow may start a fresh space.
    pub repeat: bool,
    /// Whether this call lays out a bounded region inside other content.
    pub nested: bool,
}

impl LayoutContext {
    pub open spec fn valid(self) -> bool {
        self.spaces@.len() > 0 && self.axes.valid()
    }

    pub open spec fn space(self) -> LayoutSpace {
        self.spaces@[0]
    }

    /// Whether overflow starts a new page.
    pub open spec fn paginates(self) -> bool {
        self.repeat && !self.nested
    }

    /// The extent of the content area along the primary and secondary axis.
    pub open spec fn avail(self) -> (u64, u64) {
        self.axes.generalize_spec(self.space().usable_spec())
    }

    pub open spec fn env(self) -> Env {
        Env {
            style: self.style,
            fonts: self.fonts,
            space: self.space(),
            axes: self.axes,
            align: self.align,
            paginates: self.paginates(),
        }
    }
}

/// Whether `n` is a node that occupies room of its own.
pub open spec fn is_unit(n: Node) -> bool {
    n is Text || n is Group
}

/// The number of nodes of `ns` that occupy room.
pub open spec fn unit_count(ns: Seq<Node>) -> nat
    decreases ns.len(),
{
    if ns.len() == 0 {
        0
    } else {
        unit_count(ns.drop_last()) + if is_unit(ns.last()) {
            1nat
        } else {
            0nat
        }
    }
}

/// The number of actions over all boxes of `bs`.
pub open spec fn placed_count(bs: Seq<LayoutBox>) -> nat
    decreases bs.len(),
{
    if bs.len() == 0 {
        0
    } else {
        placed_count(bs.drop_last()) + bs.last().actions@.len()
    }
}

/// What the placement of a flow depends on: the styles, the metrics, the
/// shape of its spaces, its axes and alignment, and whether it paginates.
pub struct Env {
    pub style: LayoutStyle,
    pub fonts: FontLoader,
    pub space: LayoutSpace,
    pub axes: LayoutAxes,
    pub align: LayoutAlign,
    pub paginates: bool,
}

impl Env {
    pub open spec fn avail(self) -> (u64, u64) {
        self.axes.generalize_spec(self.space.usable_spec())
    }
}

/// The extent of unit `n` along the primary and secondary axis.
pub open spec fn unit_extent(n: Node, env: Env) -> (u64, u64) {
    match n {
        Node::Text { chars, .. } => (
            env.fonts.text_extent_spec(chars),
            env.style.text.line_height,
        ),
        Node::Group { size, .. } => env.axes.generalize_spec(size),
        _ => (0, 0),
    }
}

/// Whether every box of `bs` fits the content area of `sp` and fills it on
/// each axis where `sp` expands.
pub open spec fn boxes_fit(bs: Seq<LayoutBox>, sp: LayoutSpace) -> bool {
    forall|i: int|
        0 <= i < bs.len() ==> {
            let d = (#[trigger] bs[i]).dimensions;
            &&& d.fits_in(sp.usable_spec())
            &&& sp.expansion.horizontal ==> d.x == sp.usable_spec().x
            &&& sp.expansion.vertical ==> d.y == sp.usable_spec().y
            &&& forall|k: int|
                0 <= k < bs[i].actions@.len() ==> (#[trigger] bs[i].actions@[k]).within(d)
        }
}

/// A unit placed on a page: a word, or a group with the page of its body.
pub enum ItemModel {
    Word(Span),
    Region(Span, PageModel),
}

/// A finished page: its dimensions and the units on it, in order.
pub struct PageModel {
    pub dims: Size,
    pub items: Seq<ItemModel>,
    /// The position and covered size of each unit.
    pub places: Seq<(Size, Size)>,
}

/// Whether box `b` is page `m`: same dimensions, and each action is the
/// unit of `m` in the same place of the order.
pub open spec fn box_matches(b: LayoutBox, m: PageModel) -> bool
    decreases m,
{
    &&& b.dimensions == m.dims
    &&& b.actions@.len() == m.items.len()
    &&& m.places.len() == m.items.len()
    &&& forall|j: int| 0 <= j < m.items.len() ==> action_matches(#[trigger] b.actions@[j], m.items[j])
    &&& forall|j: int| 0 <= j < m.items.len() ==> (#[trigger] b.actions@[j]).at_spec() == m.places[j].0
        && b.actions@[j].extent_spec() == m.places[j].1
}

pub open spec fn action_matches(a: LayoutAction, it: ItemModel) -> bool
    decreases it,
{
    match it {
        ItemModel::Word(s) => a matches LayoutAction::Text { span, .. } && span == s,
        ItemModel::Region(s, m) => a matches LayoutAction::Child { span, layout, .. } && span == s
            && box_matches(layout, m),
    }
}

/// `spans` moved by `offset`, where every one of them can be; else as they are.
pub open spec fn moved_spans(spans: Seq<Span>, offset: u64) -> Seq<Span> {
    if forall|i: int| 0 <= i < spans.len() ==> (#[trigger] spans[i]).can_offset(offset) {
        spans.map_values(|s: Span| s.offset_spec(offset))
    } else {
        spans
    }
}

/// The flow of a group's body: a space of the group's size without padding,
/// filled on both axes, that does not paginate, with the group's alignment
/// where it sets one.
pub open spec fn child_env(env: Env, size: Size, align: Option<LayoutAlign>) -> Env {
    Env {
        space: LayoutSpace {
            size,
            padding: Margins { left: 0, top: 0, right: 0, bottom: 0 },
            expansion: LayoutExpansion { horizontal: true, vertical: true },
        },
        align: match align {
            Some(a) => a,
            None => env.align,
        },
        paginates: false,
        ..env
    }
}

/// The state of a flow as the greedy placement sees it: the cursor, the
/// number of finished pages, and the number of units placed and left out.
pub struct FlowState {
    pub cursor_p: u64,
    pub line_top: u64,
    pub line_h: u64,
    pub max_p: u64,
    pub pages: nat,
    pub placed: nat,
    pub dropped: nat,
    /// The finished pages.
    pub done: Seq<PageModel>,
    /// The units on the current page.
    pub items: Seq<ItemModel>,
    /// The position along the axes and the extent of each unit on the
    /// current page.
    pub slots: Seq<(u64, u64, u64, u64)>,
    /// The spans of the diagnostics so far.
    pub diags: Seq<Span>,
}

impl FlowState {
    pub open spec fn start() -> FlowState {
        FlowState {
            cursor_p: 0,
            line_top: 0,
            line_h: 0,
            max_p: 0,
            pages: 0,
            placed: 0,
            dropped: 0,
            done: Seq::empty(),
            items: Seq::empty(),
            slots: Seq::empty(),
            diags: Seq::empty(),
        }
    }

    /// The dimensions of the current page once finished: the content area
    /// on each axis where the space expands, else the extent used.
    pub open spec fn page_dims(self, env: Env) -> Size {
        env.axes.specialize_spec(self.box_extent(env).0, self.box_extent(env).1)
    }

    /// The extent of the current page once finished, along the primary and
    /// secondary axis.
    pub open spec fn box_extent(self, env: Env) -> (u64, u64) {
        let fill_p = if env.axes.primary.horizontal_spec() {
            env.space.expansion.horizontal
        } else {
            env.space.expansion.vertical
        };
        let fill_s = if env.axes.primary.horizontal_spec() {
            env.space.expansion.vertical
        } else {
            env.space.expansion.horizontal
        };
        (
            if fill_p {
                env.avail().0
            } else {
                self.max_p
            },
            if fill_s {
                env.avail().1
            } else {
                (self.line_top + self.line_h) as u64
            },
        )
    }

    /// Where the unit placed at `slot` (its position and extent along the
    /// axes) lands in the finished page, and the size it covers: the content
    /// is aligned in the page, and reversed axes count from the far side.
    pub open spec fn place_of(self, slot: (u64, u64, u64, u64), env: Env) -> (Size, Size) {
        let (p, s, w, h) = slot;
        let (box_p, box_s) = self.box_extent(env);
        let lp = align_offset(env.align.primary, (box_p - self.max_p) as u64) + p;
        let ls = align_offset(env.align.secondary, (box_s - (self.line_top + self.line_h)) as u64) + s;
        let ap = if env.axes.primary.reversed_spec() {
            box_p - lp - w
        } else {
            lp
        };
        let as_ = if env.axes.secondary.reversed_spec() {
            box_s - ls - h
        } else {
            ls
        };
        (env.axes.specialize_spec(ap as u64, as_ as u64), env.axes.specialize_spec(w, h))
    }

    pub open spec fn page(self, env: Env) -> PageModel {
        PageModel {
            dims: self.page_dims(env),
            items: self.items,
            places: Seq::new(self.slots.len(), |k: int| self.place_of(self.slots[k], env)),
        }
    }

    /// All pages: the finished ones and the current one.
    pub open spec fn all_pages(self, env: Env) -> Seq<PageModel> {
        self.done.push(self.page(env))
    }

    pub open spec fn fresh(self) -> bool {
        self.cursor_p == 0 && self.line_top == 0 && self.line_h == 0
    }

    pub open spec fn newline(self) -> FlowState {
        FlowState { cursor_p: 0, line_top: (self.line_top + self.line_h) as u64, line_h: 0, ..self }
    }

    pub open spec fn new_page(self, env: Env) -> FlowState {
        FlowState {
            cursor_p: 0,
            line_top: 0,
            line_h: 0,
            max_p: 0,
            pages: self.pages + 1,
            done: self.done.push(self.page(env)),
            items: Seq::empty(),
            slots: Seq::empty(),
            ..self
        }
    }

    /// Whether a unit of extent `(w, h)` fits at the cursor.
    pub open spec fn fits(self, w: u64, h: u64, env: Env) -> bool {
        self.cursor_p + w <= env.avail().0 && self.line_top + h <= env.avail().1
    }

    /// The state once the line is broken where a unit of extent `w` would
    /// run past its end.
    pub open spec fn wrapped(self, w: u64, env: Env) -> FlowState {
        if self.cursor_p > 0 && self.cursor_p + w > env.avail().0 {
            self.newline()
        } else {
            self
        }
    }

    /// The state once room is sought for a unit: the line is broken, and a
    /// new page is started where the unit still does not fit and the flow
    /// paginates.
    pub open spec fn room(self, w: u64, h: u64, env: Env) -> FlowState {
        let a = self.wrapped(w, env);
        if a.fits(w, h, env) {
            a
        } else if env.paginates && !a.fresh() {
            a.new_page(env)
        } else {
            a
        }
    }

    pub open spec fn put(self, w: u64, h: u64, item: ItemModel) -> FlowState {
        let c = (self.cursor_p + w) as u64;
        FlowState {
            cursor_p: c,
            line_h: if h > self.line_h {
                h
            } else {
                self.line_h
            },
            max_p: if c > self.max_p {
                c
            } else {
                self.max_p
            },
            placed: self.placed + 1,
            items: self.items.push(item),
            slots: self.slots.push((self.cursor_p, self.line_top, w, h)),
            ..self
        }
    }

    /// The state once the unit at `span` is left out and reported.
    pub open spec fn drop_unit(self, span: Span) -> FlowState {
        FlowState { dropped: self.dropped + 1, diags: self.diags.push(span), ..self }
    }

    pub open spec fn add_unit(self, w: u64, h: u64, env: Env, item: ItemModel, span: Span, extra: Seq<Span>) -> FlowState {
        let r = self.room(w, h, env);
        if r.fits(w, h, env) {
            FlowState { diags: r.diags + extra, ..r.put(w, h, item) }
        } else {
            r.drop_unit(span)
        }
    }

    /// The state after node `n`.
    pub open spec fn step(self, n: Node, env: Env) -> FlowState
        decreases n,
    {
        match n {
            Node::Text { span, .. } => self.add_unit(
                unit_extent(n, env).0,
                unit_extent(n, env).1,
                env,
                ItemModel::Word(span),
                span,
                Seq::empty(),
            ),
            Node::Space { .. } => if self.cursor_p > 0 {
                let gap = env.style.text.word_spacing;
                let room = env.avail().0 - self.cursor_p;
                FlowState {
                    cursor_p: (self.cursor_p + if gap < room {
                        gap as int
                    } else {
                        room
                    }) as u64,
                    ..self
                }
            } else {
                self
            },
            Node::Parbreak { .. } => {
                let a = self.newline();
                if a.line_top > 0 {
                    let gap = env.style.text.paragraph_spacing;
                    let room = env.avail().1 - a.line_top;
                    FlowState {
                        line_top: (a.line_top + if gap < room {
                            gap as int
                        } else {
                            room
                        }) as u64,
                        ..a
                    }
                } else {
                    a
                }
            },
            Node::Group { span, size, align, body } => if size.x == 0 || size.y == 0 {
                self.drop_unit(span)
            } else {
                let cenv = child_env(env, size, align);
                let child = run(body@, cenv);
                self.add_unit(
                    unit_extent(n, env).0,
                    unit_extent(n, env).1,
                    env,
                    ItemModel::Region(span, child.page(cenv)),
                    span,
                    moved_spans(child.diags, span.start),
                )
            },
        }
    }
}

/// The state of the flow after `nodes`.
pub open spec fn run(nodes: Seq<Node>, env: Env) -> FlowState
    decreases nodes,
{
    if nodes.len() == 0 {
        FlowState::start()
    } else {
        run(nodes.drop_last(), env).step(nodes.last(), env)
    }
}

/// Whether unit `n` fits on an empty space of `ctx`.
pub open spec fn fits_alone(n: Node, ctx: LayoutContext) -> bool {
    &&& unit_extent(n, ctx.env()).0 <= ctx.avail().0
    &&& unit_extent(n, ctx.env()).1 <= ctx.avail().1
    &&& n is Group ==> n->Group_size.x > 0 && n->Group_size.y > 0
}

/// The message of a diagnostic for a unit that does not fit.
pub open spec fn overflow_message() -> Seq<char> {
    "content does not fit into its region"@
}

/// Whether `out` is the pages of the flow of `nodes` in `env`.
pub open spec fn pages_are(nodes: Seq<Node>, env: Env, out: Seq<LayoutBox>) -> bool {
    &&& out.len() == run(nodes, env).all_pages(env).len()
    &&& forall|k: int| 0 <= k < out.len() ==> box_matches(#[trigger] out[k], run(nodes, env).all_pages(env)[k])
}

/// Whether `ds` is the diagnostics of the flow of `nodes` in `env`: one
/// error for each unit left out, at its span, with those of each placed
/// group's body in between, moved to the group's start (left where they
/// are when a moved span would pass `u64::MAX`).
pub open spec fn diags_are(nodes: Seq<Node>, env: Env, ds: Seq<Diagnostic>) -> bool {
    &&& diag_spans(ds) == run(nodes, env).diags
    &&& forall|i: int| 0 <= i < ds.len() ==> (#[trigger] ds[i]).severity == Severity::Error
        && ds[i].message@ == overflow_message()
}

/// What a successful layout of `nodes` in `ctx` returns.
pub open spec fn laid_out(nodes: Seq<Node>, ctx: LayoutContext, p: Pass<MultiLayout>) -> bool {
    &&& p.output@.len() >= 1
    &&& p.output@.len() == run(nodes, ctx.env()).pages + 1
    &&& pages_are(nodes, ctx.env(), p.output@)
    &&& diags_are(nodes, ctx.env(), p.feedback.diagnostics@)
    &&& p.feedback.decorations@.len() == 0
    &&& placed_count(p.output@) == run(nodes, ctx.env()).placed
    &&& boxes_fit(p.output@, ctx.space())
    &&& !ctx.paginates() ==> p.output@.len() == 1
    &&& placed_count(p.output@) <= unit_count(nodes)
    &&& placed_count(p.output@) + p.feedback.diagnostics@.len() >= unit_count(nodes)
    &&& ctx.paginates() && (forall|i: int|
        0 <= i < nodes.len() && is_unit(#[trigger] nodes[i]) ==> fits_alone(nodes[i], ctx))
        ==> placed_count(p.output@) == unit_count(nodes)
    &&& nodes.len() == 0 ==> {
        &&& p.output@.len() == 1
        &&& p.output@[0].actions@.len() == 0
        &&& p.feedback.is_empty()
    }
}

/// Content placed in the current space, at a position along the primary
/// and secondary axis, before the space is finished.
struct Pending {
    p: u64,
    s: u64,
    w: u64,
    h: u64,
    content: PlacedContent,
}

impl Pending {
    spec fn shaped(self, axes: LayoutAxes) -> bool {
        self.content matches PlacedContent::Region(_, l) ==> l.dimensions == axes.specialize_spec(
            self.w,
            self.h,
        )
    }
}

/// The state of a flow: the cursor in the current space, the content placed
/// there, the finished pages, and the feedback so far. Coordinates are along
/// the primary and secondary axis.
struct Flow {
    avail_p: u64,
    avail_s: u64,
    /// Next free position on the current line.
    cursor_p: u64,
    /// Where the current line starts.
    line_top: u64,
    /// The extent of the current line.
    line_h: u64,
    /// The longest line of the current space.
    max_p: u64,
    pending: Vec<Pending>,
    pages: Vec<LayoutBox>,
    feedback: Feedback,
    /// The number of units left out.
    dropped: Ghost<nat>,
    /// The model of each finished page.
    done: Ghost<Seq<PageModel>>,
    /// The model of each unit on the current page.
    items: Ghost<Seq<ItemModel>>,
}

impl Flow {
    spec fn model(self) -> FlowState {
        FlowState {
            cursor_p: self.cursor_p,
            line_top: self.line_top,
            line_h: self.line_h,
            max_p: self.max_p,
            pages: self.pages@.len(),
            placed: self.placed(),
            dropped: self.dropped@,
            done: self.done@,
            items: self.items@,
            slots: self.pending@.map_values(|e: Pending| (e.p, e.s, e.w, e.h)),
            diags: diag_spans(self.feedback.diagnostics@),
        }
    }

    spec fn inv(self, ctx: LayoutContext) -> bool {
        &&& self.pages@.len() == self.done@.len()
        &&& forall|k: int| 0 <= k < self.pages@.len() ==> box_matches(#[trigger] self.pages@[k], self.done@[k])
        &&& self.pending@.len() == self.items@.len()
        &&& forall|k: int| 0 <= k < self.pending@.len() ==> content_matches(#[trigger] self.pending@[k].content, self.items@[k])
        &&& forall|i: int| 0 <= i < self.feedback.diagnostics@.len() ==> (#[trigger] self.feedback.diagnostics@[i]).severity == Severity::Error
            && self.feedback.diagnostics@[i].message@ == overflow_message()
        &&& self.feedback.decorations@.len() == 0
        &&& ctx.valid()
        &&& ctx.space().valid()
        &&& (self.avail_p, self.avail_s) == ctx.avail()
        &&& self.cursor_p <= self.avail_p
        &&& self.max_p <= self.avail_p
        &&& self.line_top + self.line_h <= self.avail_s
        &&& forall|k: int|
            0 <= k < self.pending@.len() ==> {
                let e = #[trigger] self.pending@[k];
                &&& e.p + e.w <= self.max_p
                &&& e.s + e.h <= self.line_top + self.line_h
                &&& e.shaped(ctx.axes)
            }
        &&& boxes_fit(self.pages@, ctx.space())
        &&& !ctx.paginates() ==> self.pages@.len() == 0
    }

    spec fn placed(self) -> nat {
        placed_count(self.pages@) + self.pending@.len()
    }

    spec fn fresh(self) -> bool {
        self.cursor_p == 0 && self.line_top == 0 && self.line_h == 0
    }

    /// Closes the current line.
    fn newline(&mut self, ctx: &LayoutContext)
        requires
            old(self).inv(*ctx),
        ensures
            final(self).inv(*ctx),
            final(self).placed() == old(self).placed(),
            final(self).cursor_p == 0,
            final(self).line_h == 0,
            final(self).pages@ == old(self).pages@,
            final(self).pending@ == old(self).pending@,
            final(self).feedback == old(self).feedback,
            final(self).model() == old(self).model().newline(),
            old(self).fresh() ==> final(self).fresh(),
    {
        self.line_top = self.line_top + self.line_h;
        self.line_h = 0;
        self.cursor_p = 0;
    }

    /// The box of the current space, sized per the space's expansion, with
    /// its content aligned in it.
    fn finish_box(&mut self, ctx: &LayoutContext) -> (b: LayoutBox)
        requires
            old(self).inv(*ctx),
        ensures
            final(self).pages@ == old(self).pages@,
            final(self).feedback == old(self).feedback,
            final(self).pending@.len() == 0,
            final(self).fresh(),
            final(self).max_p == 0,
            final(self).dropped == old(self).dropped,
            final(self).done == old(self).done,
            final(self).items@ == Seq::<ItemModel>::empty(),
            (final(self).avail_p, final(self).avail_s) == (old(self).avail_p, old(self).avail_s),
            b.actions@.len() == old(self).pending@.len(),
            boxes_fit(seq![b], ctx.space()),
            box_matches(b, old(self).model().page(ctx.env())),
    {
        let ghost its = self.items@;
        let ghost m0 = self.model();
        let ghost pg = m0.page(ctx.env());
        let u = ctx.spaces[0].usable();
        let exp = ctx.spaces[0].expansion;
        let used_s = self.line_top + self.line_h;
        let horizontal = ctx.axes.primary.is_horizontal();
        let fill_p = if horizontal {
            exp.horizontal
        } else {
            exp.vertical
        };
        let fill_s = if horizontal {
            exp.vertical
        } else {
            exp.horizontal
        };
        let box_p = if fill_p {
            self.avail_p
        } else {
            self.max_p
        };
        let box_s = if fill_s {
            self.avail_s
        } else {
            used_s
        };
        let dims = ctx.axes.specialize(box_p, box_s);
        assert(dims.fits_in(u));
        let off_p = offset_for(ctx.align.primary, box_p - self.max_p);
        let off_s = offset_for(ctx.align.secondary, box_s - used_s);
        let rev_p = ctx.axes.primary.is_reversed();
        let rev_s = ctx.axes.secondary.is_reversed();
        let mut pending = Vec::new();
        core::mem::swap(&mut pending, &mut self.pending);
        let ghost all = pending@;
        let ghost max_p = self.max_p;
        let mut actions: Vec<LayoutAction> = Vec::new();
        while pending.len() > 0
            invariant
                all.len() == actions@.len() + pending@.len(),
                pending@ == all.subrange(actions@.len() as int, all.len() as int),
                max_p + off_p <= box_p,
                used_s + off_s <= box_s,
                dims == ctx.axes.specialize_spec(box_p, box_s),
                forall|k: int|
                    0 <= k < all.len() ==> {
                        let e = #[trigger] all[k];
                        &&& e.p + e.w <= max_p
                        &&& e.s + e.h <= used_s
                        &&& e.shaped(ctx.axes)
                    },
                all.len() == its.len(),
                forall|k: int| 0 <= k < all.len() ==> content_matches(#[trigger] all[k].content, its[k]),
                forall|k: int| 0 <= k < actions@.len() ==> action_matches(#[trigger] actions@[k], its[k]),
                forall|k: int| 0 <= k < actions@.len() ==> (#[trigger] actions@[k]).at_spec() == pg.places[k].0
                    && actions@[k].extent_spec() == pg.places[k].1,
                pg.places.len() == all.len(),
                forall|k: int| 0 <= k < all.len() ==> #[trigger] pg.places[k] == m0.place_of((all[k].p, all[k].s, all[k].w, all[k].h), ctx.env()),
                (box_p, box_s) == m0.box_extent(ctx.env()),
                off_p == align_offset(ctx.align.primary, (box_p - max_p) as u64),
                off_s == align_offset(ctx.align.secondary, (box_s - used_s) as u64),
                rev_p == ctx.axes.primary.reversed_spec(),
                rev_s == ctx.axes.secondary.reversed_spec(),
                max_p == m0.max_p,
                used_s == m0.line_top + m0.line_h,
                forall|k: int| 0 <= k < actions@.len() ==> (#[trigger] actions@[k]).within(dims),
            decreases pending@.len(),
        {
            let e = pending.remove(0);
            assert(e == all[actions@.len() as int]);
            let lp = off_p + e.p;
            let ls = off_s + e.s;
            let ap = if rev_p {
                box_p - lp - e.w
            } else {
                lp
            };
            let as_ = if rev_s {
                box_s - ls - e.h
            } else {
                ls
            };
            let at = ctx.axes.specialize(ap, as_);
            let action = match e.content {
                PlacedContent::Word(span) => LayoutAction::Text {
                    at,
                    extent: ctx.axes.specialize(e.w, e.h),
                    span,
                },
                PlacedContent::Region(span, layout) => LayoutAction::Child { at, span, layout },
            };
            assert(action.within(dims));
            assert(pg.places[actions@.len() as int] == m0.place_of((e.p, e.s, e.w, e.h), ctx.env()));
            assert(at == pg.places[actions@.len() as int].0);
            assert(action.extent_spec() == pg.places[actions@.len() as int].1);
            assert(content_matches(all[actions@.len() as int].content, its[actions@.len() as int]));
            assert(action_matches(action, its[actions@.len() as int]));
            actions.push(action);
            assert(pending@ == all.subrange(actions@.len() as int, all.len() as int));
        }
        self.cursor_p = 0;
        self.line_top = 0;
        self.line_h = 0;
        self.max_p = 0;
        self.items = Ghost(Seq::empty());
        let b = LayoutBox { dimensions: dims, actions };
        assert(seq![b][0] == b);
        b
    }

    /// Whether a unit of extent `(w, h)` fits at the cursor.
    fn fits_here(&self, w: u64, h: u64) -> (r: bool)
        requires
            self.cursor_p <= self.avail_p,
            self.line_top + self.line_h <= self.avail_s,
        ensures
            r == (self.cursor_p + w <= self.avail_p && self.line_top + h <= self.avail_s),
    {
        w <= self.avail_p - self.cursor_p && h <= self.avail_s - self.line_top
    }

    /// Finds room for a unit of extent `(w, h)`: wraps the line, and starts
    /// a new page where the flow paginates. Returns whether there is room at
    /// the cursor.
    fn make_room(&mut self, ctx: &LayoutContext, w: u64, h: u64) -> (r: bool)
        requires
            old(self).inv(*ctx),
        ensures
            final(self).inv(*ctx),
            final(self).placed() == old(self).placed(),
            final(self).feedback == old(self).feedback,
            r == (final(self).cursor_p + w <= final(self).avail_p && final(self).line_top + h
                <= final(self).avail_s),
            ctx.paginates() && w <= old(self).avail_p && h <= old(self).avail_s ==> r,
            final(self).model() == old(self).model().room(w, h, ctx.env()),
            r == final(self).model().fits(w, h, ctx.env()),
    {
        if self.cursor_p > 0 && w > self.avail_p - self.cursor_p {
            self.newline(ctx);
        }
        if self.fits_here(w, h) {
            return true;
        }
        if ctx.repeat && !ctx.nested && !(self.cursor_p == 0 && self.line_top == 0
            && self.line_h == 0) {
            let ghost pages0 = self.pages@;
            let ghost pg = self.model().page(ctx.env());
            let b = self.finish_box(ctx);
            self.pages.push(b);
            self.done = Ghost(self.done@.push(pg));
            proof {
                assert(self.model().slots =~= Seq::<(u64, u64, u64, u64)>::empty());
                assert(self.pages@.drop_last() == pages0);
                assert forall|k: int| 0 <= k < self.pages@.len() implies box_matches(#[trigger] self.pages@[k], self.done@[k]) by {
                    if k < pages0.len() {
                        assert(self.pages@[k] == pages0[k]);
                    }
                }
                lemma_boxes_fit_push(pages0, b, ctx.space());
            }
            return self.fits_here(w, h);
        }
        false
    }

    /// Places content of extent `(w, h)` at the cursor.
    fn place(&mut self, ctx: &LayoutContext, w: u64, h: u64, content: PlacedContent, Ghost(item): Ghost<ItemModel>)
        requires
            content_matches(content, item),
            old(self).inv(*ctx),
            old(self).cursor_p + w <= old(self).avail_p,
            old(self).line_top + h <= old(self).avail_s,
            content matches PlacedContent::Region(_, l) ==> l.dimensions == ctx.axes.specialize_spec(
                w,
                h,
            ),
        ensures
            final(self).inv(*ctx),
            final(self).placed() == old(self).placed() + 1,
            final(self).pages@ == old(self).pages@,
            final(self).feedback == old(self).feedback,
            final(self).model() == old(self).model().put(w, h, item),
    {
        let ghost before = self.pending@;
        let ghost its = self.items@;
        let ghost sl = self.model().slots;
        let ghost slot = (self.cursor_p, self.line_top, w, h);
        self.items = Ghost(self.items@.push(item));
        self.pending.push(Pending { p: self.cursor_p, s: self.line_top, w, h, content });
        self.cursor_p = self.cursor_p + w;
        if h > self.line_h {
            self.line_h = h;
        }
        if self.cursor_p > self.max_p {
            self.max_p = self.cursor_p;
        }
        assert forall|k: int| 0 <= k < self.pending@.len() implies {
            let e = #[trigger] self.pending@[k];
            &&& e.p + e.w <= self.max_p
            &&& e.s + e.h <= self.line_top + self.line_h
            &&& e.shaped(ctx.axes)
        } by {
            if k < before.len() {
                assert(self.pending@[k] == before[k]);
            }
        }
        assert(self.model().slots =~= sl.push(slot));
        assert forall|k: int| 0 <= k < self.pending@.len() implies content_matches(#[trigger] self.pending@[k].content, self.items@[k]) by {
            if k < before.len() {
                assert(self.pending@[k] == before[k]);
                assert(self.items@[k] == its[k]);
            }
        }
    }

    /// Records that the unit at `span` did not fit.
    fn overflow(&mut self, ctx: &LayoutContext, span: Span)
        requires
            old(self).inv(*ctx),
        ensures
            final(self).inv(*ctx),
            final(self).placed() == old(self).placed(),
            final(self).feedback.diagnostics@.len() == old(self).feedback.diagnostics@.len() + 1,
            final(self).feedback.decorations@ == old(self).feedback.decorations@,
            final(self).pages@ == old(self).pages@,
            final(self).pending@ == old(self).pending@,
            (final(self).avail_p, final(self).avail_s, final(self).cursor_p, final(self).line_top,
            final(self).line_h, final(self).max_p) == (old(self).avail_p, old(self).avail_s,
            old(self).cursor_p, old(self).line_top, old(self).line_h, old(self).max_p),
            final(self).model() == old(self).model().drop_unit(span),
    {
        let ghost ds = self.feedback.diagnostics@;
        self.dropped = Ghost(self.dropped@ + 1);
        self.feedback.diagnostics.push(
            Diagnostic {
                severity: Severity::Error,
                message: String::from_str("content does not fit into its region"),
                span,
            },
        );
        assert(diag_spans(self.feedback.diagnostics@) =~= diag_spans(ds).push(span));
        assert forall|i: int| 0 <= i < self.feedback.diagnostics@.len() implies (#[trigger] self.feedback.diagnostics@[i]).severity == Severity::Error
            && self.feedback.diagnostics@[i].message@ == overflow_message() by {
            if i < ds.len() {
                assert(self.feedback.diagnostics@[i] == ds[i]);
            }
        }
    }
}

/// Lays out `nodes` in the spaces of `ctx`.
///
/// Overflow in a flow that paginates starts a new page the shape of the
/// first space; elsewhere the unit that does not fit is left out and an
/// error is recorded. A group is laid out by a nested call in a space of its
/// own size, with the group's alignment where it sets one; the feedback of
/// that call, whose spans are relative to the group's start, is moved to
/// the coordinates of `nodes` (feedback whose spans would pass `u64::MAX`
/// when moved is kept as it is). Content is aligned in each finished box.
pub fn layout_nodes(nodes: &Vec<Node>, ctx: &LayoutContext) -> (r: Result<
    Pass<MultiLayout>,
    LayoutError,
>)
    requires
        ctx.valid(),
    ensures
        r is Err <==> !ctx.space().valid(),
        r matches Ok(p) ==> laid_out(nodes@, *ctx, p),
    decreases nodes,
{
    if !ctx.spaces[0].is_valid() {
        return Err(LayoutError::InvalidSpace);
    }
    let (avail_p, avail_s) = ctx.axes.generalize(ctx.spaces[0].usable());
    let mut flow = Flow {
        avail_p,
        avail_s,
        cursor_p: 0,
        line_top: 0,
        line_h: 0,
        max_p: 0,
        pending: Vec::new(),
        pages: Vec::new(),
        feedback: Feedback::new(),
        dropped: Ghost(0),
        done: Ghost(Seq::empty()),
        items: Ghost(Seq::empty()),
    };
    assert(diag_spans(flow.feedback.diagnostics@) =~= Seq::<Span>::empty());
    assert(flow.model().slots =~= Seq::<(u64, u64, u64, u64)>::empty());
    assert(nodes@.subrange(0, 0) =~= Seq::<Node>::empty());
    let mut i: usize = 0;
    while i < nodes.len()
        invariant
            flow.inv(*ctx),
            i <= nodes@.len(),
            flow.model() == run(nodes@.subrange(0, i as int), ctx.env()),
            i == 0 ==> flow.fresh() && flow.feedback.is_empty() && flow.pending@.len() == 0
                && flow.pages@.len() == 0,
        decreases nodes@.len() - i,
    {
        proof {
            assert(nodes@.subrange(0, i + 1).drop_last() == nodes@.subrange(0, i as int));
            reveal_with_fuel(run, 2);
        }
        flow_node(&mut flow, &nodes[i], ctx);
        i = i + 1;
    }
    assert(nodes@.subrange(0, i as int) == nodes@);
    let ghost pages0 = flow.pages@;
    let ghost pg = flow.model().page(ctx.env());
    let b = flow.finish_box(ctx);
    flow.pages.push(b);
    flow.done = Ghost(flow.done@.push(pg));
    proof {
        assert forall|k: int| 0 <= k < flow.pages@.len() implies box_matches(#[trigger] flow.pages@[k], flow.done@[k]) by {
            if k < pages0.len() {
                assert(flow.pages@[k] == pages0[k]);
            }
        }
        assert(flow.pages@.drop_last() == pages0);
        lemma_boxes_fit_push(pages0, b, ctx.space());
    }
    proof {
        lemma_run_counts(nodes@, ctx.env());
        lemma_run_diags(nodes@, ctx.env());
        if ctx.paginates() && (forall|k: int|
            0 <= k < nodes@.len() && is_unit(#[trigger] nodes@[k]) ==> fits_alone(nodes@[k], *ctx)) {
            lemma_run_keeps_all(nodes@, *ctx);
        }
    }
    Ok(Pass { output: flow.pages, feedback: flow.feedback })
}

proof fn lemma_boxes_fit_push(bs: Seq<LayoutBox>, b: LayoutBox, sp: LayoutSpace)
    requires
        boxes_fit(bs, sp),
        boxes_fit(seq![b], sp),
    ensures
        boxes_fit(bs.push(b), sp),
{
    assert forall|i: int| 0 <= i < bs.push(b).len() implies {
        let d = (#[trigger] bs.push(b)[i]).dimensions;
        &&& d.fits_in(sp.usable_spec())
        &&& sp.expansion.horizontal ==> d.x == sp.usable_spec().x
        &&& sp.expansion.vertical ==> d.y == sp.usable_spec().y
        &&& forall|k: int|
            0 <= k < bs.push(b)[i].actions@.len() ==> (#[trigger] bs.push(b)[i].actions@[k]).within(d)
    } by {
        if i < bs.len() {
            assert(bs.push(b)[i] == bs[i]);
        } else {
            assert(bs.push(b)[i] == seq![b][0]);
        }
    }
}

/// Lays out one node into `flow`; a group through a nested call.
fn flow_node(flow: &mut Flow, node: &Node, ctx: &LayoutContext)
    requires
        old(flow).inv(*ctx),
    ensures
        final(flow).inv(*ctx),
        final(flow).model() == old(flow).model().step(*node, ctx.env()),
    decreases node,
{
    match node {
        Node::Text { span, chars } => {
            let w = ctx.fonts.text_extent(*chars);
            let h = ctx.style.text.line_height;
            if flow.make_room(ctx, w, h) {
                assert(flow.model().diags + Seq::<Span>::empty() =~= flow.model().diags);
                flow.place(ctx, w, h, PlacedContent::Word(*span), Ghost(ItemModel::Word(*span)));
            } else {
                flow.overflow(ctx, *span);
            }
        },
        Node::Space { .. } => {
            if flow.cursor_p > 0 {
                let gap = ctx.style.text.word_spacing;
                let room = flow.avail_p - flow.cursor_p;
                flow.cursor_p = flow.cursor_p + if gap < room {
                    gap
                } else {
                    room
                };
            }
        },
        Node::Parbreak { .. } => {
            flow.newline(ctx);
            if flow.line_top > 0 {
                let gap = ctx.style.text.paragraph_spacing;
                let room = flow.avail_s - flow.line_top;
                flow.line_top = flow.line_top + if gap < room {
                    gap
                } else {
                    room
                };
            }
        },
        Node::Group { span, size, align, body } => {
            let (w, h) = ctx.axes.generalize(*size);
            if size.x == 0 || size.y == 0 {
                flow.overflow(ctx, *span);
            } else if flow.make_room(ctx, w, h) {
                let child_ctx = LayoutContext {
                    style: ctx.style,
                    fonts: ctx.fonts,
                    spaces: vec![
                        LayoutSpace {
                            size: *size,
                            padding: Margins::uniform(0),
                            expansion: LayoutExpansion::new(true, true),
                        },
                    ],
                    axes: ctx.axes,
                    align: match align {
                        Some(a) => *a,
                        None => ctx.align,
                    },
                    repeat: false,
                    nested: true,
                };
                let ghost cenv = child_env(ctx.env(), *size, *align);
                assert(child_ctx.spaces@ == seq![cenv.space]);
                assert(child_ctx.env() == cenv);
                let ghost crun = run(body@, cenv);
                let ghost ds0 = flow.feedback.diagnostics@;
                let child = layout_nodes(body, &child_ctx);
                match child {
                    Ok(pass) => {
                        let ghost cds = pass.feedback.diagnostics@;
                        let mut boxes = pass.output;
                        assert(crun.all_pages(cenv).len() == 1);
                        assert(crun.all_pages(cenv)[0] == crun.page(cenv));
                        let layout = boxes.pop().unwrap();
                        assert(box_matches(layout, crun.page(cenv)));
                        assert(diag_spans(cds) == crun.diags);
                        if pass.feedback.fits_offset(span.start) {
                            proof {
                                assert forall|i: int| 0 <= i < crun.diags.len() implies (#[trigger] crun.diags[i]).can_offset(span.start) by {
                                    assert(crun.diags[i] == cds[i].span);
                                }
                            }
                            flow.feedback.extend_offset(pass.feedback, span.start);
                            assert(diag_spans(flow.feedback.diagnostics@) =~= diag_spans(ds0) + moved_spans(crun.diags, span.start));
                        } else {
                            proof {
                                if forall|i: int| 0 <= i < crun.diags.len() ==> (#[trigger] crun.diags[i]).can_offset(span.start) {
                                    assert forall|i: int| 0 <= i < cds.len() implies (#[trigger] cds[i]).span.can_offset(span.start) by {
                                        assert(crun.diags[i] == cds[i].span);
                                    }
                                }
                            }
                            flow.feedback.extend(pass.feedback);
                            assert(diag_spans(flow.feedback.diagnostics@) =~= diag_spans(ds0) + moved_spans(crun.diags, span.start));
                        }
                        assert forall|i: int| 0 <= i < flow.feedback.diagnostics@.len() implies (#[trigger] flow.feedback.diagnostics@[i]).severity == Severity::Error by {
                            if i >= ds0.len() {
                                assert(flow.feedback.diagnostics@[i].severity == cds[i - ds0.len()].severity);
                            }
                        }
                        flow.place(ctx, w, h, PlacedContent::Region(*span, layout), Ghost(ItemModel::Region(*span, crun.page(cenv))));
                    },
                    Err(_) => {
                        flow.overflow(ctx, *span);
                    },
                }
            } else {
                flow.overflow(ctx, *span);
            }
        },
    }
}

/// Every unit is either placed or left out.
pub proof fn lemma_run_counts(nodes: Seq<Node>, env: Env)
    ensures
        run(nodes, env).placed + run(nodes, env).dropped == unit_count(nodes),
    decreases nodes.len(),
{
    reveal_with_fuel(run, 2);
    if nodes.len() > 0 {
        lemma_run_counts(nodes.drop_last(), env);
    }
}

/// Each unit left out is reported.
proof fn lemma_run_diags(nodes: Seq<Node>, env: Env)
    ensures
        run(nodes, env).diags.len() >= run(nodes, env).dropped,
    decreases nodes.len(),
{
    reveal_with_fuel(run, 2);
    if nodes.len() > 0 {
        lemma_run_diags(nodes.drop_last(), env);
    }
}

/// Where no node is a group, there is one diagnostic per unit left out.
proof fn lemma_flat_diag_count(nodes: Seq<Node>, env: Env)
    requires
        forall|i: int| 0 <= i < nodes.len() ==> !(#[trigger] nodes[i] is Group),
    ensures
        run(nodes, env).diags.len() == run(nodes, env).dropped,
    decreases nodes.len(),
{
    reveal_with_fuel(run, 2);
    if nodes.len() > 0 {
        let init = nodes.drop_last();
        assert forall|i: int| 0 <= i < init.len() implies !(#[trigger] init[i] is Group) by {
            assert(init[i] == nodes[i]);
        }
        lemma_flat_diag_count(init, env);
        assert(nodes.last() == nodes[nodes.len() - 1]);
    }
}

/// In a paginating flow, a unit that fits an empty page is never left out.
proof fn lemma_run_keeps_all(nodes: Seq<Node>, ctx: LayoutContext)
    requires
        ctx.paginates(),
        forall|i: int| 0 <= i < nodes.len() && is_unit(#[trigger] nodes[i]) ==> fits_alone(nodes[i], ctx),
    ensures
        run(nodes, ctx.env()).dropped == 0,
    decreases nodes.len(),
{
    reveal_with_fuel(run, 2);
    if nodes.len() > 0 {
        let init = nodes.drop_last();
        assert forall|i: int| 0 <= i < init.len() && is_unit(#[trigger] init[i]) implies fits_alone(init[i], ctx) by {
            assert(init[i] == nodes[i]);
        }
        lemma_run_keeps_all(init, ctx);
        assert(nodes.last() == nodes[nodes.len() - 1]);
    }
}

/// Where no node is a group, every diagnostic is at the span of a node.
pub proof fn lemma_flat_diags_in_nodes(nodes: Seq<Node>, env: Env, end: u64)
    requires
        forall|i: int| 0 <= i < nodes.len() ==> !(#[trigger] nodes[i] is Group) && nodes[i].span_spec().start <= nodes[i].span_spec().end <= end,
    ensures
        forall|i: int| 0 <= i < run(nodes, env).diags.len() ==> (#[trigger] run(nodes, env).diags[i]).start <= run(nodes, env).diags[i].end <= end,
    decreases nodes.len(),
{
    reveal_with_fuel(run, 2);
    if nodes.len() > 0 {
        let init = nodes.drop_last();
        assert forall|i: int| 0 <= i < init.len() implies !(#[trigger] init[i] is Group) && init[i].span_spec().start <= init[i].span_spec().end <= end by {
            assert(init[i] == nodes[i]);
        }
        lemma_flat_diags_in_nodes(init, env, end);
        let n = nodes.last();
        assert(n == nodes[nodes.len() - 1]);
        let prev = run(init, env);
        let next = run(nodes, env);
        assert(next.diags.len() >= prev.diags.len());
        assert forall|i: int| 0 <= i < next.diags.len() implies (#[trigger] next.diags[i]).start <= next.diags[i].end <= end by {
            if i < prev.diags.len() {
                assert(next.diags[i] == prev.diags[i]);
            } else {
                assert(next.diags[i] == n.span_spec());
            }
        }
    }
}

/// A node starts at most one page, and only a unit does, in a flow that
/// paginates, where the unit fits neither the rest of the line nor the
/// lines left on a page that already holds content.
pub proof fn lemma_page_breaks_only_on_overflow(nodes: Seq<Node>, i: int, env: Env)
    requires
        0 <= i < nodes.len(),
    ensures
        ({
            let before = run(nodes.subrange(0, i), env);
            let after = run(nodes.subrange(0, i + 1), env);
            let (w, h) = unit_extent(nodes[i], env);
            &&& after.pages <= before.pages + 1
            &&& after.pages == before.pages + 1 ==> {
                &&& is_unit(nodes[i])
                &&& env.paginates
                &&& !before.wrapped(w, env).fits(w, h, env)
                &&& !before.wrapped(w, env).fresh()
            }
        }),
{
    reveal_with_fuel(run, 2);
    assert(nodes.subrange(0, i + 1).drop_last() == nodes.subrange(0, i));
    assert(nodes.subrange(0, i + 1).last() == nodes[i]);
}

/// Until the flow without pagination first leaves a unit out, the
/// paginating flow is in the same state; from then on it has started a
/// page.
proof fn lemma_runs_agree(nodes: Seq<Node>, paged: LayoutContext, bounded: LayoutContext)
    requires
        paged.paginates(),
        bounded == (LayoutContext { repeat: false, ..paged }),
        forall|i: int| 0 <= i < nodes.len() && is_unit(#[trigger] nodes[i]) ==> fits_alone(nodes[i], paged),
    ensures
        run(nodes, bounded.env()).dropped == 0 ==> run(nodes, paged.env()) == run(nodes, bounded.env()),
        run(nodes, bounded.env()).dropped > 0 ==> run(nodes, paged.env()).pages >= 1,
    decreases nodes.len(),
{
    reveal_with_fuel(run, 2);
    if nodes.len() > 0 {
        let init = nodes.drop_last();
        assert forall|i: int| 0 <= i < init.len() && is_unit(#[trigger] init[i]) implies fits_alone(init[i], paged) by {
            assert(init[i] == nodes[i]);
        }
        lemma_runs_agree(init, paged, bounded);
        let n = nodes.last();
        assert(n == nodes[nodes.len() - 1]);
        assert(bounded.avail() == paged.avail());
        assert(unit_extent(n, bounded.env()) == unit_extent(n, paged.env()));
    }
}

/// Content that overflows a space when the flow may not paginate is laid
/// out on more than one page when it may, provided each unit fits an empty
/// page.
pub proof fn lemma_overflow_takes_more_pages(
    nodes: Seq<Node>,
    paged: LayoutContext,
    p: Pass<MultiLayout>,
    bounded: LayoutContext,
    q: Pass<MultiLayout>,
)
    requires
        paged.paginates(),
        bounded == (LayoutContext { repeat: false, ..paged }),
        forall|i: int| 0 <= i < nodes.len() && is_unit(#[trigger] nodes[i]) ==> fits_alone(nodes[i], paged),
        laid_out(nodes, paged, p),
        laid_out(nodes, bounded, q),
        placed_count(q.output@) < unit_count(nodes),
    ensures
        p.output@.len() > 1,
{
    lemma_run_counts(nodes, bounded.env());
    lemma_runs_agree(nodes, paged, bounded);
}

/// Laying out no nodes in a space that expands on both axes gives exactly
/// one box, with no content and no feedback, that fills the content area.
pub proof fn lemma_empty_fills_space(ctx: LayoutContext, p: Pass<MultiLayout>)
    requires
        laid_out(Seq::empty(), ctx, p),
        ctx.space().expansion.horizontal,
        ctx.space().expansion.vertical,
    ensures
        p.output@.len() == 1,
        p.output@[0].actions@.len() == 0,
        p.output@[0].dimensions == ctx.space().usable_spec(),
        p.feedback.is_empty(),
{
}

/// Where the flow paginates and every unit fits an empty page, no unit is
/// lost, every page has the size of the first, and content without groups
/// gives no diagnostic.
pub proof fn lemma_pagination_keeps_all(nodes: Seq<Node>, ctx: LayoutContext, p: Pass<MultiLayout>)
    requires
        laid_out(nodes, ctx, p),
        ctx.paginates(),
        forall|i: int| 0 <= i < nodes.len() && is_unit(#[trigger] nodes[i]) ==> fits_alone(nodes[i], ctx),
        ctx.space().expansion.horizontal,
        ctx.space().expansion.vertical,
    ensures
        placed_count(p.output@) == unit_count(nodes),
        (forall|i: int| 0 <= i < nodes.len() ==> !(#[trigger] nodes[i] is Group)) ==> p.feedback.diagnostics@.len() == 0,
        forall|i: int| 0 <= i < p.output@.len() ==> (#[trigger] p.output@[i]).dimensions == p.output@[0].dimensions,
{
    assert(boxes_fit(p.output@, ctx.space()));
    lemma_run_keeps_all(nodes, ctx);
    if forall|i: int| 0 <= i < nodes.len() ==> !(#[trigger] nodes[i] is Group) {
        lemma_flat_diag_count(nodes, ctx.env());
        assert(p.feedback.diagnostics@.len() == diag_spans(p.feedback.diagnostics@).len());
    }
}

/// Outside a paginating flow no further space is made: the layout is one
/// box within the content area, and units that could not be placed are
/// reported by at least one diagnostic.
pub proof fn lemma_bounded_overflow_reported(nodes: Seq<Node>, ctx: LayoutContext, p: Pass<MultiLayout>)
    requires
        laid_out(nodes, ctx, p),
        !ctx.paginates(),
        placed_count(p.output@) < unit_count(nodes),
    ensures
        p.output@.len() == 1,
        p.output@[0].dimensions.fits_in(ctx.space().usable_spec()),
        forall|k: int|
            0 <= k < p.output@[0].actions@.len() ==> (#[trigger] p.output@[0].actions@[k]).within(
                p.output@[0].dimensions,
            ),
        p.feedback.diagnostics@.len() > 0,
{
}

/// Whether placed content is the unit `it`.
spec fn content_matches(c: PlacedContent, it: ItemModel) -> bool {
    match it {
        ItemModel::Word(s) => c matches PlacedContent::Word(sp) && sp == s,
        ItemModel::Region(s, m) => c matches PlacedContent::Region(sp, l) && sp == s && box_matches(l, m),
    }
}

/// The spans of `ds`, in order.
pub open spec fn diag_spans(ds: Seq<Diagnostic>) -> Seq<Span> {
    ds.map_values(|d: Diagnostic| d.span)
}

/// What a placed action shows.
enum PlacedContent {
    Word(Span),
    Region(Span, LayoutBox),
}

} // verus!
