//! The layout and render engine.
//!
//! The engine walks the document tree with a layout cursor and an available
//! region.  A block node advances the cursor vertically by its line height
//! plus top margin, narrows the region by its left margin, stacks its
//! children top to bottom, and emits a bounding box that spans its start
//! position, its children's boxes and its final cursor, inflated by the
//! bottom and right margins.  An inline node collapses each child into a
//! plain text run.  A text run is tokenized on whitespace and laid out with
//! greedy wrapping: a token that would cross the region's right edge moves
//! the cursor to the start of a new line, one line height down.  Every
//! laid-out node contributes `(bounding box, actions, id)` to the hit-test
//! list, in pre-order: a node's entry comes before its children's, so later
//! entries nest inside earlier ones and callers scan from the end of the
//! list for the innermost match.
//!
//! All geometry is in centipixels.  Cursor advances saturate at `u64::MAX`
//! instead of overflowing; the wrap comparison itself is exact.

use vstd::prelude::*;
use vstd::pervasive::unreached;
use crate::dom::{clone_actions, DOMAction, DOMElement, DOM};
use crate::geometry::{add_sat, sat_add, sat_sub, sub_sat, BoundingBox, Point};
use crate::provider::{Dimensions, RenderError, TextProvider};
use crate::style::{Display, FontFamily, FontWeight, Style, TextDecorationLine};
use crate::text::{spec_tokenize, tokenize};

verus! {

/// An entry of the hit-test list, at the specification level.
#[verifier::ext_equal]
pub struct HitEntry {
    pub bbox: BoundingBox,
    pub actions: Seq<DOMAction>,
    pub id: Seq<char>,
}

/// The outcome of laying out a node or a run of nodes: the cursor after it,
/// the low and high corners of the space it spans, and the hit-test entries
/// it emitted.
#[verifier::ext_equal]
pub struct LayoutOut {
    pub cursor: Point,
    pub lo: Point,
    pub hi: Point,
    pub entries: Seq<HitEntry>,
}

/// A render error, at the specification level (string payloads as
/// character sequences).
pub enum LayErr {
    Collapse(Seq<char>),
    MissingFont(FontFamily, FontWeight),
    Measurement,
}

/// The specification-level view of a render error.
pub open spec fn err_model(e: RenderError) -> LayErr {
    match e {
        RenderError::CollapseViolation { id } => LayErr::Collapse(id@),
        RenderError::MissingFont { family, weight } => LayErr::MissingFont(family, weight),
        RenderError::MeasurementFailure => LayErr::Measurement,
    }
}

/// What measuring a token yields: its dimensions, or the error.
pub open spec fn spec_measure_model<P: TextProvider>(
    p: &P,
    token: Seq<char>,
    family: FontFamily,
    weight: FontWeight,
    size_px: u16,
) -> Result<Dimensions, LayErr> {
    if !p.spec_has_font(family, weight) {
        Err(LayErr::MissingFont(family, weight))
    } else if !p.spec_measure_ok(token, family, weight, size_px) {
        Err(LayErr::Measurement)
    } else {
        Ok(p.spec_measure(token, family, weight, size_px))
    }
}

/// The running state of token layout: the cursor and the low and high
/// corners of the space visited so far.
#[verifier::ext_equal]
pub struct TokState {
    pub cursor: Point,
    pub lo: Point,
    pub hi: Point,
}

/// Lays out `tokens[i..]` with greedy wrapping, starting from state `st`.
/// A token whose width would cross the region's right edge first moves the
/// cursor to the region's left edge, one line height down; the cursor then
/// advances by the token width plus one space width.
pub open spec fn spec_lay_tokens<P: TextProvider>(
    p: &P,
    tokens: Seq<Seq<char>>,
    i: int,
    st: TokState,
    region: BoundingBox,
    lh: u64,
    space_w: u64,
    family: FontFamily,
    weight: FontWeight,
    size_px: u16,
) -> Result<TokState, LayErr>
    decreases tokens.len() - i,
{
    if i < 0 || i >= tokens.len() {
        Ok(st)
    } else {
        match spec_measure_model(p, tokens[i], family, weight, size_px) {
            Err(e) => Err(e),
            Ok(d) => {
                let c1 = if st.cursor.x + d.width > region.x + region.width {
                    Point { x: region.x, y: sat_add(st.cursor.y, lh) }
                } else {
                    st.cursor
                };
                let c2 = Point { x: sat_add(c1.x, sat_add(d.width, space_w)), y: c1.y };
                let st2 = TokState {
                    cursor: c2,
                    lo: st.lo.spec_min_with(c1),
                    hi: st.hi.spec_max_with(c2),
                };
                spec_lay_tokens(p, tokens, i + 1, st2, region, lh, space_w, family, weight, size_px)
            },
        }
    }
}

/// Lays out one text run: measures a space at the run's font, lays out the
/// run's whitespace tokens, and emits one hit-test entry spanning the space
/// the run visited.
pub open spec fn spec_lay_text<P: TextProvider>(
    p: &P,
    style: Style,
    text: Seq<char>,
    actions: Seq<DOMAction>,
    id: Seq<char>,
    region: BoundingBox,
    pos: Point,
) -> Result<LayoutOut, LayErr> {
    let lh = style.font.size.spec_to_centipixels();
    let size_px = style.font.size.spec_to_pixels_rounded();
    match spec_measure_model(p, " "@, style.font.family, style.font.weight, size_px) {
        Err(e) => Err(e),
        Ok(space) => {
            let st0 = TokState { cursor: pos, lo: pos, hi: pos };
            match spec_lay_tokens(
                p,
                spec_tokenize(text),
                0,
                st0,
                region,
                lh,
                space.width,
                style.font.family,
                style.font.weight,
                size_px,
            ) {
                Err(e) => Err(e),
                Ok(st) => Ok(
                    LayoutOut {
                        cursor: st.cursor,
                        lo: st.lo,
                        hi: st.hi,
                        entries: seq![
                            HitEntry {
                                bbox: BoundingBox::spec_from_corners(st.lo, st.hi),
                                actions,
                                id,
                            },
                        ],
                    },
                ),
            }
        },
    }
}

/// Whether an exec hit-test list matches the specification entries.
pub open spec fn entries_match(
    v: Seq<(BoundingBox, Vec<DOMAction>, String)>,
    es: Seq<HitEntry>,
) -> bool {
    &&& v.len() == es.len()
    &&& forall|i: int|
        0 <= i < v.len() ==> (#[trigger] v[i]).0 == es[i].bbox && v[i].1@ == es[i].actions
            && v[i].2@ == es[i].id
}

/// Whether the exec hit-test list grew from `pre` to `post` by exactly the
/// entries `added`.
pub open spec fn boxes_extended(
    pre: Seq<(BoundingBox, Vec<DOMAction>, String)>,
    post: Seq<(BoundingBox, Vec<DOMAction>, String)>,
    added: Seq<HitEntry>,
) -> bool {
    &&& post.len() == pre.len() + added.len()
    &&& post.subrange(0, pre.len() as int) == pre
    &&& entries_match(post.subrange(pre.len() as int, post.len() as int), added)
}

/// Lays out one text run and pushes its hit-test entry.
#[verifier::loop_isolation(false)]
fn lay_text<P: TextProvider>(
    provider: &P,
    style: &Style,
    text: &String,
    actions: &Vec<DOMAction>,
    id: &String,
    region: BoundingBox,
    pos: Point,
    element_boxes: &mut Vec<(BoundingBox, Vec<DOMAction>, String)>,
) -> (r: Result<(Point, Point, Point), RenderError>)
    ensures
        ({
            let spec_r = spec_lay_text(provider, *style, text@, actions@, id@, region, pos);
            match r {
                Ok(st) => {
                    &&& spec_r matches Ok(o)
                    &&& st.0 == o.cursor
                    &&& st.1 == o.lo
                    &&& st.2 == o.hi
                    &&& boxes_extended(old(element_boxes)@, final(element_boxes)@, o.entries)
                },
                Err(e) => {
                    &&& spec_r matches Err(me)
                    &&& me == err_model(e)
                    &&& final(element_boxes)@ == old(element_boxes)@
                },
            }
        }),
{
    let lh = style.font.size.to_centipixels();
    let size_px = style.font.size.to_pixels_rounded();
    let family = style.font.family;
    let weight = style.font.weight;
    let space = match provider.measure(" ", family, weight, size_px) {
        Ok(d) => d,
        Err(e) => {
            return Err(e);
        },
    };
    let tokens = tokenize(text.as_str());
    let ghost toks = spec_tokenize(text@);
    let mut cursor = pos;
    let mut lo = pos;
    let mut hi = pos;
    let ghost st0 = TokState { cursor: pos, lo: pos, hi: pos };
    let mut j: usize = 0;
    while j < tokens.len()
        invariant
            j <= tokens@.len(),
            spec_lay_tokens(
                provider,
                toks,
                0,
                st0,
                region,
                lh,
                space.width,
                family,
                weight,
                size_px,
            ) == spec_lay_tokens(
                provider,
                toks,
                j as int,
                TokState { cursor, lo, hi },
                region,
                lh,
                space.width,
                family,
                weight,
                size_px,
            ),
        decreases tokens@.len() - j,
    {
        let ghost st_j = TokState { cursor, lo, hi };
        let d = match provider.measure(tokens[j].as_str(), family, weight, size_px) {
            Ok(d) => d,
            Err(e) => {
                return Err(e);
            },
        };
        if (cursor.x as u128) + (d.width as u128) > (region.x as u128) + (region.width as u128) {
            cursor = Point { x: region.x, y: add_sat(cursor.y, lh) };
        }
        if matches!(style.text_decoration.line, TextDecorationLine::Underline) {
            provider.draw_line(
                cursor.x,
                cursor.y,
                add_sat(cursor.x, d.width),
                cursor.y,
                100,
                style.text_decoration.color,
            );
        }
        let _ = provider.draw(
            tokens[j].as_str(),
            cursor.x,
            cursor.y,
            size_px,
            style.color,
            family,
            weight,
        );
        lo = lo.min_with(cursor);
        cursor = Point { x: add_sat(cursor.x, add_sat(d.width, space.width)), y: cursor.y };
        hi = hi.max_with(cursor);
        proof {
            assert(spec_lay_tokens(
                provider,
                toks,
                j as int,
                st_j,
                region,
                lh,
                space.width,
                family,
                weight,
                size_px,
            ) == spec_lay_tokens(
                provider,
                toks,
                j + 1,
                TokState { cursor, lo, hi },
                region,
                lh,
                space.width,
                family,
                weight,
                size_px,
            ));
        }
        j += 1;
    }
    element_boxes.push((BoundingBox::from_corners(lo, hi), clone_actions(actions), id.clone()));
    proof {
        assert(element_boxes@.subrange(0, old(element_boxes)@.len() as int) =~= old(
            element_boxes,
        )@);
        assert(element_boxes@.subrange(
            old(element_boxes)@.len() as int,
            element_boxes@.len() as int,
        ) =~= seq![element_boxes@.last()]);
    }
    Ok((cursor, lo, hi))
}

} // verus!

verus! {

/// Prepends already-emitted entries to the outcome of the remaining nodes.
pub open spec fn spec_chain(prefix: Seq<HitEntry>, r: Result<LayoutOut, LayErr>) -> Result<
    LayoutOut,
    LayErr,
> {
    match r {
        Ok(o) => Ok(LayoutOut { cursor: o.cursor, lo: o.lo, hi: o.hi, entries: prefix + o.entries }),
        Err(e) => Err(e),
    }
}

/// Lays out the siblings `cs[i..]` in block flow: each child starts at the
/// cursor the previous one returned, and the low and high corners accumulate
/// over the children.
pub open spec fn spec_lay_children<P: TextProvider>(
    p: &P,
    cs: Seq<DOMElement>,
    i: int,
    region: BoundingBox,
    cursor: Point,
    lo: Point,
    hi: Point,
) -> Result<LayoutOut, LayErr>
    decreases cs, 0int, cs.len() - i,
{
    if i < 0 || i >= cs.len() {
        Ok(LayoutOut { cursor, lo, hi, entries: Seq::empty() })
    } else {
        match spec_lay_element(p, cs[i], region, cursor) {
            Err(e) => Err(e),
            Ok(o) => spec_chain(
                o.entries,
                spec_lay_children(
                    p,
                    cs,
                    i + 1,
                    region,
                    o.cursor,
                    lo.spec_min_with(o.lo),
                    hi.spec_max_with(o.hi),
                ),
            ),
        }
    }
}

/// Lays out the children of an inline node: each child is collapsed into a
/// plain text run, and the runs flow one after the other.
pub open spec fn spec_lay_inline<P: TextProvider>(
    p: &P,
    cs: Seq<DOMElement>,
    i: int,
    region: BoundingBox,
    cursor: Point,
    lo: Point,
    hi: Point,
) -> Result<LayoutOut, LayErr>
    decreases cs.len() - i,
{
    if i < 0 || i >= cs.len() {
        Ok(LayoutOut { cursor, lo, hi, entries: Seq::empty() })
    } else {
        match cs[i].spec_collapse() {
            Err(bad) => Err(LayErr::Collapse(bad)),
            Ok(m) => match spec_lay_text(p, m.style, m.text, m.actions, m.id, region, cursor) {
                Err(e) => Err(e),
                Ok(o) => spec_chain(
                    o.entries,
                    spec_lay_inline(
                        p,
                        cs,
                        i + 1,
                        region,
                        o.cursor,
                        lo.spec_min_with(o.lo),
                        hi.spec_max_with(o.hi),
                    ),
                ),
            },
        }
    }
}

/// Lays out one document node within a region, starting at a cursor
/// position.
///
/// A block advances the cursor by its line height plus top margin, narrows
/// the region by its left margin, stacks its children, and spans its start
/// position, its children and its final cursor, inflated by the bottom and
/// right margins; it returns a cursor moved past the bottom margin.  An
/// inline node lays its children out as collapsed text runs.  A text leaf is
/// one run.  Each node appends its own hit-test entry after its children's.
pub open spec fn spec_lay_element<P: TextProvider>(
    p: &P,
    e: DOMElement,
    region: BoundingBox,
    pos: Point,
) -> Result<LayoutOut, LayErr>
    decreases e, 1int, 0int,
    via spec_lay_element_decreases::<P>
{
    match e {
        DOMElement::Text { style, text, actions, id } => spec_lay_text(
            p,
            style,
            text@,
            actions@,
            id@,
            region,
            pos,
        ),
        DOMElement::View { style, children, actions, id } => {
            if style.display is Block {
                let lh = style.font.size.spec_to_centipixels();
                let mtop = style.margin.top.spec_to_centipixels();
                let ml = style.margin.left.spec_to_centipixels();
                let mb = style.margin.bottom.spec_to_centipixels();
                let mr = style.margin.right.spec_to_centipixels();
                let region2 = BoundingBox {
                    x: sat_add(region.x, ml),
                    y: region.y,
                    width: sat_sub(region.width, ml),
                    height: region.height,
                };
                let start = Point { x: region2.x, y: sat_add(pos.y, sat_add(lh, mtop)) };
                match spec_lay_children(
                    p,
                    children@,
                    0,
                    region2,
                    start,
                    pos.spec_min_with(start),
                    pos.spec_max_with(start),
                ) {
                    Err(e) => Err(e),
                    Ok(o) => {
                        let hi2 = Point { x: sat_add(o.hi.x, mr), y: sat_add(o.hi.y, mb) };
                        let bbox = BoundingBox::spec_from_corners(o.lo, hi2);
                        Ok(
                            LayoutOut {
                                cursor: Point { x: sat_add(pos.x, mr), y: sat_add(o.cursor.y, mb) },
                                lo: o.lo,
                                hi: hi2,
                                entries: seq![HitEntry { bbox, actions: actions@, id: id@ }]
                                    + o.entries,
                            },
                        )
                    },
                }
            } else {
                match spec_lay_inline(p, children@, 0, region, pos, pos, pos) {
                    Err(e) => Err(e),
                    Ok(o) => {
                        let bbox = BoundingBox::spec_from_corners(o.lo, o.hi);
                        Ok(
                            LayoutOut {
                                cursor: o.cursor,
                                lo: o.lo,
                                hi: o.hi,
                                entries: seq![HitEntry { bbox, actions: actions@, id: id@ }]
                                    + o.entries,
                            },
                        )
                    },
                }
            }
        },
    }
}

#[via_fn]
proof fn spec_lay_element_decreases<P: TextProvider>(
    p: &P,
    e: DOMElement,
    region: BoundingBox,
    pos: Point,
) {
    if e is View {
        assert(decreases_to!(e => e->View_children));
        assert(decreases_to!(e->View_children => e->View_children@));
        assert(decreases_to!(e => e->View_children@));
    }
}

proof fn lemma_chain_chain(a: Seq<HitEntry>, b: Seq<HitEntry>, r: Result<LayoutOut, LayErr>)
    ensures
        spec_chain(a, spec_chain(b, r)) == spec_chain(a + b, r),
{
    match r {
        Ok(o) => {
            assert(a + (b + o.entries) =~= (a + b) + o.entries);
            assert(spec_chain(a, spec_chain(b, r))->Ok_0 =~= spec_chain(a + b, r)->Ok_0);
        },
        Err(_) => {},
    }
}

proof fn lemma_extend_trans(
    pre: Seq<(BoundingBox, Vec<DOMAction>, String)>,
    mid: Seq<(BoundingBox, Vec<DOMAction>, String)>,
    post: Seq<(BoundingBox, Vec<DOMAction>, String)>,
    a: Seq<HitEntry>,
    b: Seq<HitEntry>,
)
    requires
        boxes_extended(pre, mid, a),
        boxes_extended(mid, post, b),
    ensures
        boxes_extended(pre, post, a + b),
{
    assert(post.subrange(0, pre.len() as int) =~= pre);
    let tail = post.subrange(pre.len() as int, post.len() as int);
    assert forall|i: int| 0 <= i < tail.len() implies (#[trigger] tail[i]).0 == (a + b)[i].bbox
        && tail[i].1@ == (a + b)[i].actions && tail[i].2@ == (a + b)[i].id by {
        if i < a.len() {
            assert(tail[i] == mid.subrange(pre.len() as int, mid.len() as int)[i]);
        } else {
            assert(tail[i] == post.subrange(mid.len() as int, post.len() as int)[i - a.len()]);
        }
    }
}

/// Inserting the node's own entry at the position saved before its children
/// were laid out realizes the pre-order extension.
proof fn lemma_extend_insert(
    pre: Seq<(BoundingBox, Vec<DOMAction>, String)>,
    mid: Seq<(BoundingBox, Vec<DOMAction>, String)>,
    post: Seq<(BoundingBox, Vec<DOMAction>, String)>,
    own: HitEntry,
    acc: Seq<HitEntry>,
)
    requires
        boxes_extended(pre, mid, acc),
        post == mid.insert(pre.len() as int, (own.bbox, post[pre.len() as int].1, post[pre.len() as int].2)),
        post[pre.len() as int].1@ == own.actions,
        post[pre.len() as int].2@ == own.id,
    ensures
        boxes_extended(pre, post, seq![own] + acc),
{
    let n = pre.len() as int;
    assert(post.subrange(0, n) =~= pre);
    let tail = post.subrange(n, post.len() as int);
    let added = seq![own] + acc;
    assert forall|i: int| 0 <= i < tail.len() implies (#[trigger] tail[i]).0 == added[i].bbox
        && tail[i].1@ == added[i].actions && tail[i].2@ == added[i].id by {
        if i == 0 {
            assert(tail[0] == post[n]);
        } else {
            assert(tail[i] == mid[n + i - 1]);
            assert(mid.subrange(n, mid.len() as int)[i - 1] == mid[n + i - 1]);
        }
    }
}

proof fn lemma_prefix_trans(
    pre: Seq<(BoundingBox, Vec<DOMAction>, String)>,
    mid: Seq<(BoundingBox, Vec<DOMAction>, String)>,
    post: Seq<(BoundingBox, Vec<DOMAction>, String)>,
)
    requires
        mid.len() >= pre.len(),
        mid.subrange(0, pre.len() as int) == pre,
        post.len() >= mid.len(),
        post.subrange(0, mid.len() as int) == mid,
    ensures
        post.len() >= pre.len(),
        post.subrange(0, pre.len() as int) == pre,
{
    assert(post.subrange(0, pre.len() as int) =~= pre);
}

} // verus!

verus! {

proof fn lemma_chain_empty(r: Result<LayoutOut, LayErr>)
    ensures
        spec_chain(Seq::empty(), r) == r,
{
    match r {
        Ok(o) => {
            assert(Seq::empty() + o.entries =~= o.entries);
            assert(spec_chain(Seq::empty(), r)->Ok_0 =~= o);
        },
        Err(_) => {},
    }
}

/// Lays out one document node within a region, starting at the given cursor
/// position, drawing through the provider and appending the subtree's
/// hit-test entries to `element_boxes`.  Returns the cursor after the node
/// and the low and high corners of the node's bounding box.
///
/// The result and the emitted entries are exactly those of
/// `spec_lay_element`; on an error, entries already emitted stay in place
/// and nothing else is changed.
#[verifier::loop_isolation(false)]
pub fn render_dom_element<P: TextProvider>(
    element: &DOMElement,
    region: BoundingBox,
    position: Point,
    provider: &P,
    element_boxes: &mut Vec<(BoundingBox, Vec<DOMAction>, String)>,
) -> (r: Result<(Point, Point, Point), RenderError>)
    ensures
        ({
            let spec_r = spec_lay_element(provider, *element, region, position);
            match r {
                Ok(st) => {
                    &&& spec_r matches Ok(o)
                    &&& st.0 == o.cursor
                    &&& st.1 == o.lo
                    &&& st.2 == o.hi
                    &&& boxes_extended(old(element_boxes)@, final(element_boxes)@, o.entries)
                },
                Err(e) => {
                    &&& spec_r matches Err(me) && me == err_model(e)
                    &&& final(element_boxes)@.len() >= old(element_boxes)@.len()
                    &&& final(element_boxes)@.subrange(0, old(element_boxes)@.len() as int) == old(
                        element_boxes,
                    )@
                },
            }
        }),
    decreases *element,
{
    let ghost e0 = *element;
    match element {
        DOMElement::Text { style, text, actions, id } => {
            let res = lay_text(provider, style, text, actions, id, region, position, element_boxes);
            proof {
                assert(element_boxes@.subrange(0, old(element_boxes)@.len() as int) =~= old(
                    element_boxes,
                )@);
            }
            res
        },
        DOMElement::View { style, children, actions, id } => {
            if matches!(style.display, Display::Block) {
                let lh = style.font.size.to_centipixels();
                let mtop = style.margin.top.to_centipixels();
                let ml = style.margin.left.to_centipixels();
                let mb = style.margin.bottom.to_centipixels();
                let mr = style.margin.right.to_centipixels();
                let region2 = BoundingBox {
                    x: add_sat(region.x, ml),
                    y: region.y,
                    width: sub_sat(region.width, ml),
                    height: region.height,
                };
                let start = Point { x: region2.x, y: add_sat(position.y, add_sat(lh, mtop)) };
                let idx = element_boxes.len();
                let mut cursor = start;
                let mut lo = position.min_with(start);
                let mut hi = position.max_with(start);
                let ghost lo0 = position.spec_min_with(start);
                let ghost hi0 = position.spec_max_with(start);
                let ghost mut acc: Seq<HitEntry> = Seq::empty();
                let mut k: usize = 0;
                proof {
                    lemma_chain_empty(
                        spec_lay_children(provider, children@, 0, region2, start, lo0, hi0),
                    );
                    assert(element_boxes@.subrange(0, old(element_boxes)@.len() as int) =~= old(
                        element_boxes,
                    )@);
                    assert(element_boxes@.subrange(
                        old(element_boxes)@.len() as int,
                        element_boxes@.len() as int,
                    ) =~= Seq::<(BoundingBox, Vec<DOMAction>, String)>::empty());
                }
                while k < children.len()
                    invariant
                        k <= children@.len(),
                        spec_lay_children(provider, children@, 0, region2, start, lo0, hi0)
                            == spec_chain(
                            acc,
                            spec_lay_children(
                                provider,
                                children@,
                                k as int,
                                region2,
                                cursor,
                                lo,
                                hi,
                            ),
                        ),
                        boxes_extended(old(element_boxes)@, element_boxes@, acc),
                    decreases children@.len() - k,
                {
                    let ghost boxes_mid = element_boxes@;
                    let ghost cur_k = cursor;
                    let ghost acc0 = acc;
                    proof {
                        assert(decreases_to!(e0 => e0->View_children));
                        assert(decreases_to!(e0->View_children => e0->View_children@[k as int]));
                        assert(decreases_to!(e0 => children@[k as int]));
                    }
                    let child = &children[k];
                    match render_dom_element(child, region2, cursor, provider, element_boxes) {
                        Ok(st) => {
                            let ghost o = spec_lay_element(
                                provider,
                                children@[k as int],
                                region2,
                                cur_k,
                            )->Ok_0;
                            let ghost rest = spec_lay_children(
                                provider,
                                children@,
                                k + 1int,
                                region2,
                                o.cursor,
                                lo.spec_min_with(o.lo),
                                hi.spec_max_with(o.hi),
                            );
                            cursor = st.0;
                            lo = lo.min_with(st.1);
                            hi = hi.max_with(st.2);
                            proof {
                                lemma_chain_chain(acc0, o.entries, rest);
                                acc = acc0 + o.entries;
                                lemma_extend_trans(
                                    old(element_boxes)@,
                                    boxes_mid,
                                    element_boxes@,
                                    acc0,
                                    o.entries,
                                );
                            }
                        },
                        Err(e) => {
                            proof {
                                lemma_prefix_trans(old(element_boxes)@, boxes_mid, element_boxes@);
                            }
                            return Err(e);
                        },
                    }
                    k += 1;
                }
                let hi2 = Point { x: add_sat(hi.x, mr), y: add_sat(hi.y, mb) };
                let bbox = BoundingBox::from_corners(lo, hi2);
                let ghost boxes_mid = element_boxes@;
                let ghost own = HitEntry { bbox, actions: actions@, id: id@ };
                element_boxes.insert(idx, (bbox, clone_actions(actions), id.clone()));
                let ret = Point { x: add_sat(position.x, mr), y: add_sat(cursor.y, mb) };
                proof {
                    lemma_extend_insert(old(element_boxes)@, boxes_mid, element_boxes@, own, acc);
                    assert(seq![own] + (acc + Seq::<HitEntry>::empty()) =~= seq![own] + acc);
                }
                Ok((ret, lo, hi2))
            } else {
                let idx = element_boxes.len();
                let mut cursor = position;
                let mut lo = position;
                let mut hi = position;
                let ghost mut acc: Seq<HitEntry> = Seq::empty();
                let mut k: usize = 0;
                proof {
                    lemma_chain_empty(
                        spec_lay_inline(
                            provider,
                            children@,
                            0,
                            region,
                            position,
                            position,
                            position,
                        ),
                    );
                    assert(element_boxes@.subrange(0, old(element_boxes)@.len() as int) =~= old(
                        element_boxes,
                    )@);
                    assert(element_boxes@.subrange(
                        old(element_boxes)@.len() as int,
                        element_boxes@.len() as int,
                    ) =~= Seq::<(BoundingBox, Vec<DOMAction>, String)>::empty());
                }
                while k < children.len()
                    invariant
                        k <= children@.len(),
                        spec_lay_inline(
                            provider,
                            children@,
                            0,
                            region,
                            position,
                            position,
                            position,
                        ) == spec_chain(
                            acc,
                            spec_lay_inline(
                                provider,
                                children@,
                                k as int,
                                region,
                                cursor,
                                lo,
                                hi,
                            ),
                        ),
                        boxes_extended(old(element_boxes)@, element_boxes@, acc),
                    decreases children@.len() - k,
                {
                    let ghost boxes_mid = element_boxes@;
                    let ghost cur_k = cursor;
                    let ghost acc0 = acc;
                    let run = match children[k].to_text() {
                        Ok(run) => run,
                        Err(e) => {
                            proof {
                                assert(element_boxes@.subrange(0, boxes_mid.len() as int)
                                    =~= boxes_mid);
                                lemma_prefix_trans(old(element_boxes)@, boxes_mid, element_boxes@);
                            }
                            return Err(e);
                        },
                    };
                    let ghost m = children@[k as int].spec_collapse()->Ok_0;
                    match run {
                        DOMElement::Text { style: rstyle, text: rtext, actions: racts, id: rid } => {
                            match lay_text(
                                provider,
                                &rstyle,
                                &rtext,
                                &racts,
                                &rid,
                                region,
                                cursor,
                                element_boxes,
                            ) {
                                Ok(st) => {
                                    let ghost o = spec_lay_text(
                                        provider,
                                        m.style,
                                        m.text,
                                        m.actions,
                                        m.id,
                                        region,
                                        cur_k,
                                    )->Ok_0;
                                    let ghost rest = spec_lay_inline(
                                        provider,
                                        children@,
                                        k + 1int,
                                        region,
                                        o.cursor,
                                        lo.spec_min_with(o.lo),
                                        hi.spec_max_with(o.hi),
                                    );
                                    cursor = st.0;
                                    lo = lo.min_with(st.1);
                                    hi = hi.max_with(st.2);
                                    proof {
                                        lemma_chain_chain(acc0, o.entries, rest);
                                        acc = acc0 + o.entries;
                                        lemma_extend_trans(
                                            old(element_boxes)@,
                                            boxes_mid,
                                            element_boxes@,
                                            acc0,
                                            o.entries,
                                        );
                                    }
                                },
                                Err(e) => {
                                    proof {
                                        assert(element_boxes@.subrange(0, boxes_mid.len() as int)
                                            =~= boxes_mid);
                                        lemma_prefix_trans(
                                            old(element_boxes)@,
                                            boxes_mid,
                                            element_boxes@,
                                        );
                                    }
                                    return Err(e);
                                },
                            }
                        },
                        DOMElement::View { .. } => unreached(),
                    }
                    k += 1;
                }
                let bbox = BoundingBox::from_corners(lo, hi);
                let ghost boxes_mid = element_boxes@;
                let ghost own = HitEntry { bbox, actions: actions@, id: id@ };
                element_boxes.insert(idx, (bbox, clone_actions(actions), id.clone()));
                proof {
                    lemma_extend_insert(old(element_boxes)@, boxes_mid, element_boxes@, own, acc);
                    assert(seq![own] + (acc + Seq::<HitEntry>::empty()) =~= seq![own] + acc);
                }
                Ok((cursor, lo, hi))
            }
        },
    }
}

/// What rendering a whole document yields: the top-level nodes stacked from
/// the viewport origin, each within the full viewport region.
pub open spec fn spec_lay_document<P: TextProvider>(
    p: &P,
    elements: Seq<DOMElement>,
    viewport: BoundingBox,
) -> Result<LayoutOut, LayErr> {
    spec_lay_children(
        p,
        elements,
        0,
        viewport,
        Point { x: 0, y: 0 },
        Point { x: 0, y: 0 },
        Point { x: 0, y: 0 },
    )
}

/// Renders a document within a viewport: draws every text run through the
/// provider and returns the hit-test list, one `(bounding box, actions, id)`
/// triple per laid-out node in document order (children before parents).
///
/// The list is exactly the entry sequence of `spec_lay_document`; a render
/// error aborts the pass and is returned unchanged.
#[verifier::loop_isolation(false)]
pub fn render_dom<P: TextProvider>(dom: &DOM, provider: &P, viewport: BoundingBox) -> (r: Result<
    Vec<(BoundingBox, Vec<DOMAction>, String)>,
    RenderError,
>)
    ensures
        ({
            let spec_r = spec_lay_document(provider, dom.elements@, viewport);
            match r {
                Ok(boxes) => spec_r matches Ok(o) && entries_match(boxes@, o.entries),
                Err(e) => spec_r matches Err(me) && me == err_model(e),
            }
        }),
{
    let mut element_boxes: Vec<(BoundingBox, Vec<DOMAction>, String)> = Vec::new();
    let origin = Point { x: 0, y: 0 };
    let mut cursor = origin;
    let mut lo = origin;
    let mut hi = origin;
    let ghost mut acc: Seq<HitEntry> = Seq::empty();
    let mut k: usize = 0;
    proof {
        lemma_chain_empty(
            spec_lay_children(provider, dom.elements@, 0, viewport, origin, origin, origin),
        );
        assert(element_boxes@ =~= Seq::<(BoundingBox, Vec<DOMAction>, String)>::empty());
        assert(element_boxes@.subrange(0, 0) =~= Seq::<(
            BoundingBox,
            Vec<DOMAction>,
            String,
        )>::empty());
    }
    while k < dom.elements.len()
        invariant
            k <= dom.elements@.len(),
            spec_lay_children(provider, dom.elements@, 0, viewport, origin, origin, origin)
                == spec_chain(
                acc,
                spec_lay_children(provider, dom.elements@, k as int, viewport, cursor, lo, hi),
            ),
            boxes_extended(Seq::empty(), element_boxes@, acc),
        decreases dom.elements@.len() - k,
    {
        let ghost boxes_mid = element_boxes@;
        let ghost cur_k = cursor;
        let ghost acc0 = acc;
        match render_dom_element(&dom.elements[k], viewport, cursor, provider, &mut element_boxes) {
            Ok(st) => {
                let ghost o = spec_lay_element(
                    provider,
                    dom.elements@[k as int],
                    viewport,
                    cur_k,
                )->Ok_0;
                let ghost rest = spec_lay_children(
                    provider,
                    dom.elements@,
                    k + 1int,
                    viewport,
                    o.cursor,
                    lo.spec_min_with(o.lo),
                    hi.spec_max_with(o.hi),
                );
                cursor = st.0;
                lo = lo.min_with(st.1);
                hi = hi.max_with(st.2);
                proof {
                    lemma_chain_chain(acc0, o.entries, rest);
                    acc = acc0 + o.entries;
                    lemma_extend_trans(Seq::empty(), boxes_mid, element_boxes@, acc0, o.entries);
                }
            },
            Err(e) => {
                return Err(e);
            },
        }
        k += 1;
    }
    proof {
        assert(acc + Seq::<HitEntry>::empty() =~= acc);
        assert(element_boxes@.subrange(0, element_boxes@.len() as int) =~= element_boxes@);
        assert(entries_match(element_boxes@, acc));
    }
    Ok(element_boxes)
}

} // verus!

verus! {

/// Whether an entry's box lies between the two corners.
pub open spec fn entry_within(e: HitEntry, lo: Point, hi: Point) -> bool {
    &&& lo.x <= e.bbox.x
    &&& lo.y <= e.bbox.y
    &&& sat_add(e.bbox.x, e.bbox.width) <= hi.x
    &&& sat_add(e.bbox.y, e.bbox.height) <= hi.y
}

proof fn lemma_tokens_bounds<P: TextProvider>(
    p: &P,
    tokens: Seq<Seq<char>>,
    i: int,
    st: TokState,
    region: BoundingBox,
    lh: u64,
    space_w: u64,
    family: FontFamily,
    weight: FontWeight,
    size_px: u16,
)
    ensures
        spec_lay_tokens(p, tokens, i, st, region, lh, space_w, family, weight, size_px) matches Ok(
            st2,
        ) ==> st2.lo.le(st.lo) && st.hi.le(st2.hi) && (st.lo.le(st.hi) ==> st2.lo.le(st2.hi)),
    decreases tokens.len() - i,
{
    if i < 0 || i >= tokens.len() {
    } else {
        match spec_measure_model(p, tokens[i], family, weight, size_px) {
            Err(_) => {},
            Ok(d) => {
                let c1 = if st.cursor.x + d.width > region.x + region.width {
                    Point { x: region.x, y: sat_add(st.cursor.y, lh) }
                } else {
                    st.cursor
                };
                let c2 = Point { x: sat_add(c1.x, sat_add(d.width, space_w)), y: c1.y };
                let st2 = TokState {
                    cursor: c2,
                    lo: st.lo.spec_min_with(c1),
                    hi: st.hi.spec_max_with(c2),
                };
                lemma_tokens_bounds(
                    p,
                    tokens,
                    i + 1,
                    st2,
                    region,
                    lh,
                    space_w,
                    family,
                    weight,
                    size_px,
                );
            },
        }
    }
}

proof fn lemma_text_bounds<P: TextProvider>(
    p: &P,
    style: Style,
    text: Seq<char>,
    actions: Seq<DOMAction>,
    id: Seq<char>,
    region: BoundingBox,
    pos: Point,
)
    ensures
        spec_lay_text(p, style, text, actions, id, region, pos) matches Ok(o) ==> {
            &&& o.lo.le(pos)
            &&& pos.le(o.hi)
            &&& o.lo.le(o.hi)
            &&& o.entries.len() == 1
            &&& o.entries[0].bbox == BoundingBox::spec_from_corners(o.lo, o.hi)
            &&& forall|k: int|
                0 <= k < o.entries.len() ==> entry_within(#[trigger] o.entries[k], o.lo, o.hi)
        },
{
    let lh = style.font.size.spec_to_centipixels();
    let size_px = style.font.size.spec_to_pixels_rounded();
    match spec_measure_model(p, " "@, style.font.family, style.font.weight, size_px) {
        Err(_) => {},
        Ok(space) => {
            let st0 = TokState { cursor: pos, lo: pos, hi: pos };
            lemma_tokens_bounds(
                p,
                spec_tokenize(text),
                0,
                st0,
                region,
                lh,
                space.width,
                style.font.family,
                style.font.weight,
                size_px,
            );
        },
    }
}

/// Moving the corners outward keeps an entry within them.
proof fn lemma_within_widen(e: HitEntry, lo: Point, hi: Point, lo2: Point, hi2: Point)
    requires
        entry_within(e, lo, hi),
        lo2.le(lo),
        hi.le(hi2),
    ensures
        entry_within(e, lo2, hi2),
{
}

proof fn lemma_children_bounds<P: TextProvider>(
    p: &P,
    cs: Seq<DOMElement>,
    i: int,
    region: BoundingBox,
    cursor: Point,
    lo: Point,
    hi: Point,
)
    requires
        lo.le(hi),
    ensures
        spec_lay_children(p, cs, i, region, cursor, lo, hi) matches Ok(o) ==> {
            &&& o.lo.le(lo)
            &&& hi.le(o.hi)
            &&& o.lo.le(o.hi)
            &&& forall|k: int|
                0 <= k < o.entries.len() ==> entry_within(#[trigger] o.entries[k], o.lo, o.hi)
        },
    decreases cs, 0int, cs.len() - i,
{
    if i < 0 || i >= cs.len() {
    } else {
        assert(decreases_to!(cs => cs[i]));
        lemma_element_bounds(p, cs[i], region, cursor);
        match spec_lay_element(p, cs[i], region, cursor) {
            Err(_) => {},
            Ok(oc) => {
                let lo2 = lo.spec_min_with(oc.lo);
                let hi2 = hi.spec_max_with(oc.hi);
                lemma_children_bounds(p, cs, i + 1, region, oc.cursor, lo2, hi2);
                match spec_lay_children(p, cs, i + 1, region, oc.cursor, lo2, hi2) {
                    Err(_) => {},
                    Ok(orest) => {
                        let o = spec_lay_children(p, cs, i, region, cursor, lo, hi)->Ok_0;
                        assert forall|k: int| 0 <= k < o.entries.len() implies entry_within(
                            #[trigger] o.entries[k],
                            o.lo,
                            o.hi,
                        ) by {
                            if k < oc.entries.len() {
                                assert(o.entries[k] == oc.entries[k]);
                                lemma_within_widen(oc.entries[k], oc.lo, oc.hi, o.lo, o.hi);
                            } else {
                                assert(o.entries[k] == orest.entries[k - oc.entries.len()]);
                            }
                        }
                    },
                }
            },
        }
    }
}

proof fn lemma_inline_bounds<P: TextProvider>(
    p: &P,
    cs: Seq<DOMElement>,
    i: int,
    region: BoundingBox,
    cursor: Point,
    lo: Point,
    hi: Point,
)
    requires
        lo.le(hi),
    ensures
        spec_lay_inline(p, cs, i, region, cursor, lo, hi) matches Ok(o) ==> {
            &&& o.lo.le(lo)
            &&& hi.le(o.hi)
            &&& o.lo.le(o.hi)
            &&& forall|k: int|
                0 <= k < o.entries.len() ==> entry_within(#[trigger] o.entries[k], o.lo, o.hi)
        },
    decreases cs.len() - i,
{
    if i < 0 || i >= cs.len() {
    } else {
        match cs[i].spec_collapse() {
            Err(_) => {},
            Ok(m) => {
                lemma_text_bounds(p, m.style, m.text, m.actions, m.id, region, cursor);
                match spec_lay_text(p, m.style, m.text, m.actions, m.id, region, cursor) {
                    Err(_) => {},
                    Ok(oc) => {
                        let lo2 = lo.spec_min_with(oc.lo);
                        let hi2 = hi.spec_max_with(oc.hi);
                        lemma_inline_bounds(p, cs, i + 1, region, oc.cursor, lo2, hi2);
                        match spec_lay_inline(p, cs, i + 1, region, oc.cursor, lo2, hi2) {
                            Err(_) => {},
                            Ok(orest) => {
                                let o = spec_lay_inline(p, cs, i, region, cursor, lo, hi)->Ok_0;
                                assert forall|k: int| 0 <= k < o.entries.len() implies entry_within(
                                    #[trigger] o.entries[k],
                                    o.lo,
                                    o.hi,
                                ) by {
                                    if k < oc.entries.len() {
                                        assert(o.entries[k] == oc.entries[k]);
                                        lemma_within_widen(oc.entries[k], oc.lo, oc.hi, o.lo, o.hi);
                                    } else {
                                        assert(o.entries[k] == orest.entries[k - oc.entries.len()]);
                                    }
                                }
                            },
                        }
                    },
                }
            },
        }
    }
}

proof fn lemma_element_bounds<P: TextProvider>(p: &P, e: DOMElement, region: BoundingBox, pos: Point)
    ensures
        spec_lay_element(p, e, region, pos) matches Ok(o) ==> {
            &&& o.lo.le(pos)
            &&& o.lo.le(o.hi)
            &&& o.entries.len() >= 1
            &&& o.entries[0].bbox == BoundingBox::spec_from_corners(o.lo, o.hi)
            &&& forall|k: int|
                0 <= k < o.entries.len() ==> entry_within(#[trigger] o.entries[k], o.lo, o.hi)
        },
    decreases e, 1int, 0int,
{
    match e {
        DOMElement::Text { style, text, actions, id } => {
            lemma_text_bounds(p, style, text@, actions@, id@, region, pos);
        },
        DOMElement::View { style, children, actions, id } => {
            assert(decreases_to!(e => e->View_children));
            assert(decreases_to!(e->View_children => e->View_children@));
            assert(decreases_to!(e => children@));
            if style.display is Block {
                let lh = style.font.size.spec_to_centipixels();
                let mtop = style.margin.top.spec_to_centipixels();
                let ml = style.margin.left.spec_to_centipixels();
                let mb = style.margin.bottom.spec_to_centipixels();
                let mr = style.margin.right.spec_to_centipixels();
                let region2 = BoundingBox {
                    x: sat_add(region.x, ml),
                    y: region.y,
                    width: sat_sub(region.width, ml),
                    height: region.height,
                };
                let start = Point { x: region2.x, y: sat_add(pos.y, sat_add(lh, mtop)) };
                let lo0 = pos.spec_min_with(start);
                let hi0 = pos.spec_max_with(start);
                lemma_children_bounds(p, children@, 0, region2, start, lo0, hi0);
                match spec_lay_children(p, children@, 0, region2, start, lo0, hi0) {
                    Err(_) => {},
                    Ok(och) => {
                        let hi2 = Point { x: sat_add(och.hi.x, mr), y: sat_add(och.hi.y, mb) };
                        let o = spec_lay_element(p, e, region, pos)->Ok_0;
                        assert forall|k: int| 0 <= k < o.entries.len() implies entry_within(
                            #[trigger] o.entries[k],
                            o.lo,
                            o.hi,
                        ) by {
                            if k >= 1 {
                                assert(o.entries[k] == och.entries[k - 1]);
                                lemma_within_widen(och.entries[k - 1], och.lo, och.hi, o.lo, o.hi);
                            } else {
                                assert(o.entries[0].bbox == BoundingBox::spec_from_corners(
                                    o.lo,
                                    o.hi,
                                ));
                            }
                        }
                    },
                }
            } else {
                lemma_inline_bounds(p, children@, 0, region, pos, pos, pos);
                match spec_lay_inline(p, children@, 0, region, pos, pos, pos) {
                    Err(_) => {},
                    Ok(och) => {
                        let o = spec_lay_element(p, e, region, pos)->Ok_0;
                        assert forall|k: int| 0 <= k < o.entries.len() implies entry_within(
                            #[trigger] o.entries[k],
                            o.lo,
                            o.hi,
                        ) by {
                            if k >= 1 {
                                assert(o.entries[k] == och.entries[k - 1]);
                                lemma_within_widen(och.entries[k - 1], och.lo, och.hi, o.lo, o.hi);
                            } else {
                                assert(o.entries[0].bbox == BoundingBox::spec_from_corners(
                                    o.lo,
                                    o.hi,
                                ));
                            }
                        }
                    },
                }
            }
        },
    }
}

/// Hit-testing containment: when a node lays out successfully, its own
/// emitted bounding box (the first entry of its subtree, inflated by the
/// node's margins for a block) fully contains the bounding box of every
/// entry the subtree emitted — in particular every child's emitted box.
pub proof fn lemma_hit_entries_contained<P: TextProvider>(
    p: &P,
    e: DOMElement,
    region: BoundingBox,
    pos: Point,
)
    requires
        spec_lay_element(p, e, region, pos) is Ok,
    ensures
        ({
            let o = spec_lay_element(p, e, region, pos)->Ok_0;
            &&& o.entries.len() >= 1
            &&& forall|k: int|
                0 <= k < o.entries.len() ==> o.entries[0].bbox.spec_contains_box(
                    (#[trigger] o.entries[k]).bbox,
                )
        }),
{
    lemma_element_bounds(p, e, region, pos);
    let o = spec_lay_element(p, e, region, pos)->Ok_0;
    assert forall|k: int| 0 <= k < o.entries.len() implies o.entries[0].bbox.spec_contains_box(
        (#[trigger] o.entries[k]).bbox,
    ) by {
        assert(entry_within(o.entries[k], o.lo, o.hi));
        assert(sat_add(o.lo.x, sat_sub(o.hi.x, o.lo.x)) == o.hi.x);
        assert(sat_add(o.lo.y, sat_sub(o.hi.y, o.lo.y)) == o.hi.y);
    }
}

} // verus!

verus! {

/// The total advance of `tokens[i..]`: each token's measured width plus one
/// space width.
pub open spec fn spec_advance_sum<P: TextProvider>(
    p: &P,
    tokens: Seq<Seq<char>>,
    i: int,
    space_w: u64,
    family: FontFamily,
    weight: FontWeight,
    size_px: u16,
) -> int
    decreases tokens.len() - i,
{
    if i < 0 || i >= tokens.len() {
        0
    } else {
        p.spec_measure(tokens[i], family, weight, size_px).width + space_w + spec_advance_sum(
            p,
            tokens,
            i + 1,
            space_w,
            family,
            weight,
            size_px,
        )
    }
}

proof fn lemma_advance_nonneg<P: TextProvider>(
    p: &P,
    tokens: Seq<Seq<char>>,
    i: int,
    space_w: u64,
    family: FontFamily,
    weight: FontWeight,
    size_px: u16,
)
    ensures
        spec_advance_sum(p, tokens, i, space_w, family, weight, size_px) >= 0,
    decreases tokens.len() - i,
{
    if 0 <= i < tokens.len() {
        lemma_advance_nonneg(p, tokens, i + 1, space_w, family, weight, size_px);
    }
}

/// The number of wrap points among `tokens[i..]` when layout starts with the
/// cursor at horizontal position `x`.
pub open spec fn spec_wrap_count<P: TextProvider>(
    p: &P,
    tokens: Seq<Seq<char>>,
    i: int,
    x: u64,
    region: BoundingBox,
    space_w: u64,
    family: FontFamily,
    weight: FontWeight,
    size_px: u16,
) -> nat
    decreases tokens.len() - i,
{
    if i < 0 || i >= tokens.len() {
        0
    } else {
        let d = p.spec_measure(tokens[i], family, weight, size_px);
        let wrapped = x + d.width > region.x + region.width;
        let x1 = if wrapped {
            region.x
        } else {
            x
        };
        let x2 = sat_add(x1, sat_add(d.width, space_w));
        (if wrapped {
            1nat
        } else {
            0nat
        }) + spec_wrap_count(p, tokens, i + 1, x2, region, space_w, family, weight, size_px)
    }
}

/// Wrapping, first half: tokens whose cumulative advance from the cursor
/// stays within the region's right edge lay out on a single line — the
/// vertical position never changes, and the cursor advances by exactly the
/// total of the token widths and inter-token spaces.
pub proof fn lemma_tokens_single_line<P: TextProvider>(
    p: &P,
    tokens: Seq<Seq<char>>,
    i: int,
    st: TokState,
    region: BoundingBox,
    lh: u64,
    space_w: u64,
    family: FontFamily,
    weight: FontWeight,
    size_px: u16,
)
    requires
        forall|j: int|
            i <= j < tokens.len() ==> spec_measure_model(
                p,
                #[trigger] tokens[j],
                family,
                weight,
                size_px,
            ) is Ok,
        region.x + region.width <= u64::MAX,
        st.cursor.x + spec_advance_sum(p, tokens, i, space_w, family, weight, size_px) <= region.x
            + region.width,
    ensures
        spec_lay_tokens(p, tokens, i, st, region, lh, space_w, family, weight, size_px) matches Ok(
            st2,
        ) && st2.cursor.y == st.cursor.y && st2.cursor.x == st.cursor.x + spec_advance_sum(
            p,
            tokens,
            i,
            space_w,
            family,
            weight,
            size_px,
        ) && (st.lo.le(st.cursor) ==> st2.lo == st.lo) && (st.cursor.le(st.hi) ==> st2.hi
            == st.hi.spec_max_with(st2.cursor)),
    decreases tokens.len() - i,
{
    if i < 0 || i >= tokens.len() {
    } else {
        let d = p.spec_measure(tokens[i], family, weight, size_px);
        lemma_advance_nonneg(p, tokens, i + 1, space_w, family, weight, size_px);
        assert(st.cursor.x + d.width <= region.x + region.width);
        assert(st.cursor.x + d.width + space_w <= region.x + region.width);
        let c2 = Point {
            x: sat_add(st.cursor.x, sat_add(d.width, space_w)),
            y: st.cursor.y,
        };
        assert(c2.x == st.cursor.x + d.width + space_w);
        let st2 = TokState {
            cursor: c2,
            lo: st.lo.spec_min_with(st.cursor),
            hi: st.hi.spec_max_with(c2),
        };
        lemma_tokens_single_line(
            p,
            tokens,
            i + 1,
            st2,
            region,
            lh,
            space_w,
            family,
            weight,
            size_px,
        );
    }
}

/// Wrapping, second half: every wrap point moves the cursor down exactly one
/// line height, so the final vertical position is the starting one plus the
/// line height times the number of wrap points.  The one requirement is that
/// the total cannot overflow the coordinate space.
pub proof fn lemma_tokens_wrap_height<P: TextProvider>(
    p: &P,
    tokens: Seq<Seq<char>>,
    i: int,
    st: TokState,
    region: BoundingBox,
    lh: u64,
    space_w: u64,
    family: FontFamily,
    weight: FontWeight,
    size_px: u16,
)
    requires
        forall|j: int|
            i <= j < tokens.len() ==> spec_measure_model(
                p,
                #[trigger] tokens[j],
                family,
                weight,
                size_px,
            ) is Ok,
        st.cursor.y + lh * (tokens.len() - i) <= u64::MAX,
    ensures
        spec_lay_tokens(p, tokens, i, st, region, lh, space_w, family, weight, size_px) matches Ok(
            st2,
        ) && st2.cursor.y == st.cursor.y + lh * spec_wrap_count(
            p,
            tokens,
            i,
            st.cursor.x,
            region,
            space_w,
            family,
            weight,
            size_px,
        ),
    decreases tokens.len() - i,
{
    if i < 0 || i >= tokens.len() {
        assert(spec_wrap_count(p, tokens, i, st.cursor.x, region, space_w, family, weight, size_px)
            == 0);
        assert(lh * 0nat == 0) by {
            vstd::arithmetic::mul::lemma_mul_by_zero_is_zero(lh as int);
        }
    } else {
        let d = p.spec_measure(tokens[i], family, weight, size_px);
        let n = tokens.len() - i;
        let wrapped = st.cursor.x + d.width > region.x + region.width;
        broadcast use vstd::arithmetic::mul::lemma_mul_is_distributive_add;
        broadcast use vstd::arithmetic::mul::lemma_mul_inequality;
        broadcast use vstd::arithmetic::mul::lemma_mul_nonnegative;

        assert(lh * (n - 1) <= lh * n) by {
            vstd::arithmetic::mul::lemma_mul_inequality(n - 1, n, lh as int);
            vstd::arithmetic::mul::lemma_mul_is_commutative(lh as int, n as int);
            vstd::arithmetic::mul::lemma_mul_is_commutative(lh as int, (n - 1) as int);
        }
        assert(lh * n == lh * (n - 1) + lh) by {
            vstd::arithmetic::mul::lemma_mul_is_distributive_add(lh as int, (n - 1) as int, 1);
        }
        assert(lh * (n - 1) >= 0) by {
            vstd::arithmetic::mul::lemma_mul_nonnegative(lh as int, (n - 1) as int);
        }
        let c1 = if wrapped {
            Point { x: region.x, y: sat_add(st.cursor.y, lh) }
        } else {
            st.cursor
        };
        if wrapped {
            assert(c1.y == st.cursor.y + lh);
        }
        let c2 = Point { x: sat_add(c1.x, sat_add(d.width, space_w)), y: c1.y };
        let st2 = TokState {
            cursor: c2,
            lo: st.lo.spec_min_with(c1),
            hi: st.hi.spec_max_with(c2),
        };
        lemma_tokens_wrap_height(
            p,
            tokens,
            i + 1,
            st2,
            region,
            lh,
            space_w,
            family,
            weight,
            size_px,
        );
        let wc_rest = spec_wrap_count(
            p,
            tokens,
            i + 1,
            c2.x,
            region,
            space_w,
            family,
            weight,
            size_px,
        );
        assert(lh * ((if wrapped { 1nat } else { 0nat }) + wc_rest) == (if wrapped {
            lh as int
        } else {
            0
        }) + lh * wc_rest) by {
            vstd::arithmetic::mul::lemma_mul_is_distributive_add(
                lh as int,
                (if wrapped { 1int } else { 0int }),
                wc_rest as int,
            );
        }
        assert(spec_lay_tokens(p, tokens, i, st, region, lh, space_w, family, weight, size_px)
            == spec_lay_tokens(p, tokens, i + 1, st2, region, lh, space_w, family, weight, size_px));
        let wc_total = spec_wrap_count(
            p,
            tokens,
            i,
            st.cursor.x,
            region,
            space_w,
            family,
            weight,
            size_px,
        );
        assert(wc_total == (if wrapped { 1nat } else { 0nat }) + wc_rest);
        match spec_lay_tokens(p, tokens, i + 1, st2, region, lh, space_w, family, weight, size_px) {
            Ok(stf) => {
                assert(stf.cursor.y == st2.cursor.y + lh * wc_rest);
                assert(st2.cursor.y == st.cursor.y + (if wrapped { lh as int } else { 0 }));
                assert(stf.cursor.y == st.cursor.y + lh * wc_total);
            },
            Err(_) => {
                assert(false);
            },
        }
    }
}

/// Wrapping, stated for a whole text run: when every token can be measured
/// and the run's total advance from the starting position stays within the
/// region's right edge, the run occupies exactly one line — its emitted
/// bounding box starts at the position, is one baseline high (height zero in
/// this model), and is exactly as wide as the total advance.
pub proof fn lemma_text_single_line<P: TextProvider>(
    p: &P,
    style: Style,
    text: Seq<char>,
    actions: Seq<DOMAction>,
    id: Seq<char>,
    region: BoundingBox,
    pos: Point,
)
    requires
        region.x + region.width <= u64::MAX,
        spec_measure_model(
            p,
            " "@,
            style.font.family,
            style.font.weight,
            style.font.size.spec_to_pixels_rounded(),
        ) is Ok,
        forall|j: int|
            0 <= j < spec_tokenize(text).len() ==> spec_measure_model(
                p,
                #[trigger] spec_tokenize(text)[j],
                style.font.family,
                style.font.weight,
                style.font.size.spec_to_pixels_rounded(),
            ) is Ok,
        pos.x + spec_advance_sum(
            p,
            spec_tokenize(text),
            0,
            p.spec_measure(
                " "@,
                style.font.family,
                style.font.weight,
                style.font.size.spec_to_pixels_rounded(),
            ).width,
            style.font.family,
            style.font.weight,
            style.font.size.spec_to_pixels_rounded(),
        ) <= region.x + region.width,
    ensures
        ({
            let sum = spec_advance_sum(
                p,
                spec_tokenize(text),
                0,
                p.spec_measure(
                    " "@,
                    style.font.family,
                    style.font.weight,
                    style.font.size.spec_to_pixels_rounded(),
                ).width,
                style.font.family,
                style.font.weight,
                style.font.size.spec_to_pixels_rounded(),
            );
            spec_lay_text(p, style, text, actions, id, region, pos) matches Ok(o) && o.cursor.y
                == pos.y && o.cursor.x == pos.x + sum && o.entries[0].bbox == (BoundingBox {
                x: pos.x,
                y: pos.y,
                width: sum as u64,
                height: 0,
            })
        }),
{
    let size_px = style.font.size.spec_to_pixels_rounded();
    let lh = style.font.size.spec_to_centipixels();
    let space = p.spec_measure(" "@, style.font.family, style.font.weight, size_px);
    let st0 = TokState { cursor: pos, lo: pos, hi: pos };
    lemma_advance_nonneg(
        p,
        spec_tokenize(text),
        0,
        space.width,
        style.font.family,
        style.font.weight,
        size_px,
    );
    lemma_tokens_single_line(
        p,
        spec_tokenize(text),
        0,
        st0,
        region,
        lh,
        space.width,
        style.font.family,
        style.font.weight,
        size_px,
    );
}

} // verus!
