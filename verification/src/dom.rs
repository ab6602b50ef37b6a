//! The styled document tree and its builder.
//!
//! The builder converts an input markup tree into a document tree: it
//! resolves each element's style against the inherited context (reading the
//! element's interaction flags), extracts click actions from anchors, gives
//! every node a stable identifier, and derives the context handed to the
//! children from the resolved style, which makes inheritance transitive.
//!
//! A node's identifier is its `id` attribute when present, otherwise it is
//! synthesized from the tree position (the parent's identifier, a dot, and
//! the child index), so rebuilds of an unchanged tree give the same ids.
//! Identifiers must be unique within a document: building rejects an input
//! whose identifiers collide, since interaction flags are keyed by them.

use vstd::prelude::*;
use vstd::pervasive::unreached;
use vstd::string::StringExecFns;
use crate::html::HTMLElement;
use crate::interaction::InteractionState;
use crate::provider::RenderError;
use crate::style::{
    Display, InheritableStyle, Margin, Style, resolve_style, spec_resolve_style,
};
use crate::text::{push_decimal, spec_dec_digits, str_eq};

verus! {

/// An interactive action attached to a document node.
#[derive(Debug)]
pub enum DOMAction {
    /// Follow the given target when the node is clicked.
    ClickToRedirect(String),
}

impl DOMAction {
    /// The target of the action.
    pub open spec fn spec_url(self) -> Seq<char> {
        match self {
            DOMAction::ClickToRedirect(u) => u@,
        }
    }

    /// A copy with the same value.
    pub fn clone_action(&self) -> (r: Self)
        ensures
            r == *self,
    {
        match self {
            DOMAction::ClickToRedirect(u) => DOMAction::ClickToRedirect(u.clone()),
        }
    }
}

/// The targets of a sequence of actions.
pub open spec fn spec_urls(actions: Seq<DOMAction>) -> Seq<Seq<char>> {
    actions.map_values(|a: DOMAction| a.spec_url())
}

/// A copy of an action list with the same values.
pub fn clone_actions(v: &Vec<DOMAction>) -> (r: Vec<DOMAction>)
    ensures
        r@ == v@,
{
    let mut r: Vec<DOMAction> = Vec::new();
    let mut i: usize = 0;
    while i < v.len()
        invariant
            i <= v@.len(),
            r@ =~= v@.subrange(0, i as int),
        decreases v@.len() - i,
    {
        r.push(v[i].clone_action());
        i += 1;
    }
    proof {
        assert(r@ =~= v@);
    }
    r
}

/// The values of the `href` attributes from position `i` on, in order.
pub open spec fn spec_hrefs_from(attrs: Seq<(String, String)>, i: int) -> Seq<Seq<char>>
    decreases attrs.len() - i,
{
    if i < 0 || i >= attrs.len() {
        Seq::empty()
    } else if attrs[i].0@ == "href"@ {
        seq![attrs[i].1@] + spec_hrefs_from(attrs, i + 1)
    } else {
        spec_hrefs_from(attrs, i + 1)
    }
}

/// The values of all `href` attributes, in order.
pub open spec fn spec_hrefs(attrs: Seq<(String, String)>) -> Seq<Seq<char>> {
    spec_hrefs_from(attrs, 0)
}

/// The action targets a tag and attribute list yield: one redirect per
/// `href` attribute of an anchor; nothing for any other tag.
pub open spec fn spec_actions_of(tag: Seq<char>, attrs: Seq<(String, String)>) -> Seq<Seq<char>> {
    if tag == "a"@ {
        spec_hrefs(attrs)
    } else {
        Seq::empty()
    }
}

impl DOMAction {
    /// Extracts the actions of an element: an anchor yields one redirect per
    /// `href` attribute; all other tags yield none.
    pub fn from_html_element(tag: &str, attributes: &Vec<(String, String)>) -> (r: Vec<DOMAction>)
        ensures
            spec_urls(r@) == spec_actions_of(tag@, attributes@),
    {
        let mut r: Vec<DOMAction> = Vec::new();
        if !str_eq(tag, "a") {
            proof {
                assert(spec_urls(r@) =~= Seq::<Seq<char>>::empty());
            }
            return r;
        }
        let mut i: usize = 0;
        proof {
            assert(spec_urls(r@) =~= Seq::<Seq<char>>::empty());
        }
        while i < attributes.len()
            invariant
                i <= attributes@.len(),
                spec_hrefs(attributes@) =~= spec_urls(r@) + spec_hrefs_from(
                    attributes@,
                    i as int,
                ),
            decreases attributes@.len() - i,
        {
            let ghost r0 = r@;
            if str_eq(attributes[i].0.as_str(), "href") {
                r.push(DOMAction::ClickToRedirect(attributes[i].1.clone()));
                proof {
                    assert(spec_urls(r@) =~= spec_urls(r0) + seq![
                        attributes@[i as int].1@,
                    ]);
                }
            }
            i += 1;
        }
        proof {
            assert(spec_urls(r@) =~= spec_hrefs(attributes@));
        }
        r
    }
}

/// A node of the styled document tree: a container with children, or a leaf
/// holding literal text.  Every node carries its resolved style, its
/// actions, and its stable identifier.
#[derive(Debug)]
pub enum DOMElement {
    View { style: Style, children: Vec<DOMElement>, actions: Vec<DOMAction>, id: String },
    Text { style: Style, text: String, actions: Vec<DOMAction>, id: String },
}

impl DOMElement {
    pub open spec fn spec_style(self) -> Style {
        match self {
            DOMElement::View { style, .. } => style,
            DOMElement::Text { style, .. } => style,
        }
    }

    pub open spec fn spec_actions(self) -> Seq<DOMAction> {
        match self {
            DOMElement::View { actions, .. } => actions@,
            DOMElement::Text { actions, .. } => actions@,
        }
    }

    pub open spec fn spec_id(self) -> Seq<char> {
        match self {
            DOMElement::View { id, .. } => id@,
            DOMElement::Text { id, .. } => id@,
        }
    }

    pub open spec fn spec_children(self) -> Seq<DOMElement> {
        match self {
            DOMElement::View { children, .. } => children@,
            DOMElement::Text { .. } => Seq::empty(),
        }
    }

    pub open spec fn spec_text(self) -> Seq<char>
        recommends
            self is Text,
    {
        match self {
            DOMElement::View { .. } => Seq::empty(),
            DOMElement::Text { text, .. } => text@,
        }
    }

    /// The node's resolved style.
    pub fn style(&self) -> (r: &Style)
        ensures
            *r == self.spec_style(),
    {
        match self {
            DOMElement::View { style, .. } => style,
            DOMElement::Text { style, .. } => style,
        }
    }

    /// The node's actions.
    pub fn actions(&self) -> (r: &Vec<DOMAction>)
        ensures
            r@ == self.spec_actions(),
    {
        match self {
            DOMElement::View { actions, .. } => actions,
            DOMElement::Text { actions, .. } => actions,
        }
    }

    /// The text of a leaf node; must not be called on a container.
    pub fn unchecked_text(&self) -> (r: String)
        requires
            self is Text,
        ensures
            r@ == self.spec_text(),
    {
        match self {
            DOMElement::View { .. } => unreached(),
            DOMElement::Text { text, .. } => text.clone(),
        }
    }
}

/// The outcome of collapsing a node to a plain text run: the run's style,
/// text, actions and identifier, or the identifier of the offending node.
pub struct RunModel {
    pub style: Style,
    pub text: Seq<char>,
    pub actions: Seq<DOMAction>,
    pub id: Seq<char>,
}

impl DOMElement {
    /// What collapsing this node to a text run yields.  A leaf collapses to
    /// itself; a container collapses only when it has exactly one child and
    /// that child is a leaf, taking the container's own style, actions and
    /// identifier and the child's text.
    pub open spec fn spec_collapse(self) -> Result<RunModel, Seq<char>> {
        match self {
            DOMElement::Text { style, text, actions, id } => Ok(
                RunModel { style, text: text@, actions: actions@, id: id@ },
            ),
            DOMElement::View { style, children, actions, id } => {
                if children@.len() == 1 && children@[0] is Text {
                    Ok(
                        RunModel {
                            style,
                            text: children@[0].spec_text(),
                            actions: actions@,
                            id: id@,
                        },
                    )
                } else {
                    Err(id@)
                }
            },
        }
    }

    /// Collapses the node into a plain text run, or reports the collapse
    /// violation with the offending node's identifier.
    pub fn to_text(&self) -> (r: Result<DOMElement, RenderError>)
        ensures
            match r {
                Ok(run) => {
                    &&& self.spec_collapse() matches Ok(m)
                    &&& run is Text
                    &&& run.spec_style() == self.spec_collapse()->Ok_0.style
                    &&& run.spec_text() == self.spec_collapse()->Ok_0.text
                    &&& run.spec_actions() == self.spec_collapse()->Ok_0.actions
                    &&& run.spec_id() == self.spec_collapse()->Ok_0.id
                },
                Err(e) => {
                    &&& self.spec_collapse() matches Err(bad)
                    &&& e matches RenderError::CollapseViolation { id } && id@ == bad
                },
            },
    {
        match self {
            DOMElement::Text { style, text, actions, id } => Ok(
                DOMElement::Text {
                    style: *style,
                    text: text.clone(),
                    actions: clone_actions(actions),
                    id: id.clone(),
                },
            ),
            DOMElement::View { style, children, actions, id } => {
                if children.len() == 1 {
                    match &children[0] {
                        DOMElement::Text { text, .. } => Ok(
                            DOMElement::Text {
                                style: *style,
                                text: text.clone(),
                                actions: clone_actions(actions),
                                id: id.clone(),
                            },
                        ),
                        DOMElement::View { .. } => Err(
                            RenderError::CollapseViolation { id: id.clone() },
                        ),
                    }
                } else {
                    Err(RenderError::CollapseViolation { id: id.clone() })
                }
            },
        }
    }
}

/// The value of the first `id` attribute, if any.
pub open spec fn spec_attr_id(attrs: Seq<(String, String)>) -> Option<Seq<char>>
    decreases attrs.len(),
{
    if attrs.len() == 0 {
        None
    } else if attrs[0].0@ == "id"@ {
        Some(attrs[0].1@)
    } else {
        spec_attr_id(attrs.drop_first())
    }
}

proof fn lemma_attr_id_at(attrs: Seq<(String, String)>, k: int)
    requires
        0 <= k < attrs.len(),
        forall|j: int| 0 <= j < k ==> #[trigger] attrs[j].0@ != "id"@,
        attrs[k].0@ == "id"@,
    ensures
        spec_attr_id(attrs) == Some(attrs[k].1@),
    decreases attrs.len(),
{
    if k > 0 {
        lemma_attr_id_at(attrs.drop_first(), k - 1);
    }
}

proof fn lemma_attr_id_none(attrs: Seq<(String, String)>)
    requires
        forall|j: int| 0 <= j < attrs.len() ==> #[trigger] attrs[j].0@ != "id"@,
    ensures
        spec_attr_id(attrs) is None,
    decreases attrs.len(),
{
    if attrs.len() > 0 {
        lemma_attr_id_none(attrs.drop_first());
    }
}

/// A node's identifier: the `id` attribute when present, else the parent
/// prefix followed by the decimal child index.
pub open spec fn spec_node_id(attrs: Seq<(String, String)>, prefix: Seq<char>, index: int) -> Seq<
    char,
> {
    match spec_attr_id(attrs) {
        Some(v) => v,
        None => prefix + spec_dec_digits(index as nat),
    }
}

/// Computes a node's identifier.
pub fn node_id(attributes: &Vec<(String, String)>, prefix: &str, index: usize) -> (r: String)
    ensures
        r@ == spec_node_id(attributes@, prefix@, index as int),
{
    let mut i: usize = 0;
    while i < attributes.len()
        invariant
            i <= attributes@.len(),
            forall|j: int| 0 <= j < i ==> #[trigger] attributes@[j].0@ != "id"@,
        decreases attributes@.len() - i,
    {
        if str_eq(attributes[i].0.as_str(), "id") {
            proof {
                lemma_attr_id_at(attributes@, i as int);
            }
            return attributes[i].1.clone();
        }
        i += 1;
    }
    proof {
        lemma_attr_id_none(attributes@);
    }
    let mut r = String::from_str(prefix);
    push_decimal(&mut r, index);
    r
}

/// The style of a literal text leaf: inline, default margin, and the
/// inherited font, color and decoration.
pub open spec fn spec_text_style(inherited: InheritableStyle) -> Style {
    Style {
        display: Display::Inline,
        margin: Margin::spec_default(),
        font: inherited.font,
        color: inherited.color,
        text_decoration: inherited.text_decoration,
    }
}

/// An error of document building.
#[derive(Debug)]
pub enum BuildError {
    /// The input tree violates the expected shape: an anchor without an
    /// `href` attribute, or a heading with no text content.  Carries the
    /// offending node's tag and identifier.
    MalformedInput { tag: String, id: String },
}

/// The relation between an input element and the document node built from
/// it, under an inherited context, an interaction state, and the node's tree
/// position (parent identifier prefix and child index).
pub open spec fn spec_built(
    d: DOMElement,
    e: HTMLElement,
    inherited: InheritableStyle,
    st: InteractionState,
    prefix: Seq<char>,
    index: int,
) -> bool
    decreases e,
{
    match e {
        HTMLElement::Text(t) => {
            &&& d is Text
            &&& d.spec_text() == t@
            &&& d.spec_id() == prefix + spec_dec_digits(index as nat)
            &&& d.spec_actions() == Seq::<DOMAction>::empty()
            &&& d.spec_style() == spec_text_style(inherited)
        },
        HTMLElement::Element { tag, attributes, children } => {
            let id = spec_node_id(attributes@, prefix, index);
            let style = spec_resolve_style(tag@, inherited, st.spec_flags(id));
            &&& d is View
            &&& d.spec_id() == id
            &&& d.spec_style() == style
            &&& spec_urls(d.spec_actions()) == spec_actions_of(tag@, attributes@)
            &&& d.spec_children().len() == children@.len()
            &&& forall|i: int|
                0 <= i < children@.len() ==> spec_built(
                    #[trigger] d.spec_children()[i],
                    children@[i],
                    InheritableStyle::spec_from_style(style),
                    st,
                    id + "."@,
                    i,
                )
        },
    }
}

/// Whether the subtree meets the expected input shape: every anchor has an
/// `href` attribute and every level-one heading has text content.
pub open spec fn spec_subtree_ok(e: HTMLElement) -> bool
    decreases e,
{
    match e {
        HTMLElement::Text(_) => true,
        HTMLElement::Element { tag, attributes, children } => {
            &&& tag@ == "a"@ ==> spec_hrefs(attributes@).len() > 0
            &&& tag@ == "h1"@ ==> exists|i: int|
                0 <= i < children@.len() && (#[trigger] children@[i]).spec_has_text()
            &&& forall|i: int| 0 <= i < children@.len() ==> spec_subtree_ok(#[trigger] children@[i])
        },
    }
}

/// Whether `(tag, id)` name a node of the subtree rooted at `e` (at tree
/// position `prefix`/`index`) that violates the expected input shape: an
/// anchor without an `href` attribute, or a level-one heading without text
/// content.  `id` is that node's identifier.
pub open spec fn spec_offender(
    e: HTMLElement,
    prefix: Seq<char>,
    index: int,
    tag: Seq<char>,
    id: Seq<char>,
) -> bool
    decreases e,
{
    match e {
        HTMLElement::Text(_) => false,
        HTMLElement::Element { tag: etag, attributes, children } => {
            let my_id = spec_node_id(attributes@, prefix, index);
            ||| ((etag@ == "a"@ && spec_hrefs(attributes@).len() == 0 || etag@ == "h1"@ && !(
            exists|i: int| 0 <= i < children@.len() && (#[trigger] children@[i]).spec_has_text()))
                && tag == etag@ && id == my_id)
            ||| exists|k: int|
                0 <= k < children@.len() && spec_offender(
                    #[trigger] children@[k],
                    my_id + "."@,
                    k,
                    tag,
                    id,
                )
        },
    }
}


/// The (tag, identifier) pairs the nodes of a subtree are given, in
/// pre-order; a literal text leaf has the empty tag.
pub open spec fn spec_id_pairs(e: HTMLElement, prefix: Seq<char>, index: int) -> Seq<
    (Seq<char>, Seq<char>),
>
    decreases e, 0int, 0int,
    via spec_id_pairs_dec
{
    match e {
        HTMLElement::Text(_) => seq![
            (Seq::<char>::empty(), prefix + spec_dec_digits(index as nat)),
        ],
        HTMLElement::Element { tag, attributes, children } => {
            let id = spec_node_id(attributes@, prefix, index);
            seq![(tag@, id)] + spec_id_pairs_list(children@, id + "."@, 0)
        },
    }
}

#[via_fn]
proof fn spec_id_pairs_dec(e: HTMLElement, prefix: Seq<char>, index: int) {
    if e is Element {
        assert(decreases_to!(e => e->Element_children));
        assert(decreases_to!(e->Element_children => e->Element_children@));
        assert(decreases_to!(e => e->Element_children@));
    }
}

/// The pairs of the siblings `es[j..]`, each at its positional index.
pub open spec fn spec_id_pairs_list(es: Seq<HTMLElement>, prefix: Seq<char>, j: int) -> Seq<
    (Seq<char>, Seq<char>),
>
    decreases es, 1int, es.len() - j,
{
    if j < 0 || j >= es.len() {
        Seq::empty()
    } else {
        spec_id_pairs(es[j], prefix, j) + spec_id_pairs_list(es, prefix, j + 1)
    }
}

/// The (tag, identifier) pairs of a whole document, in pre-order.
pub open spec fn spec_doc_id_pairs(es: Seq<HTMLElement>) -> Seq<(Seq<char>, Seq<char>)> {
    spec_id_pairs_list(es, Seq::empty(), 0)
}

/// Whether all identifiers of the pairs are pairwise distinct.
pub open spec fn spec_ids_unique(pairs: Seq<(Seq<char>, Seq<char>)>) -> bool {
    forall|i: int, j: int|
        0 <= i < j < pairs.len() ==> (#[trigger] pairs[i]).1 != (#[trigger] pairs[j]).1
}

/// Whether an exec pair list matches the specification pairs.
pub open spec fn pairs_match(v: Seq<(String, String)>, ps: Seq<(Seq<char>, Seq<char>)>) -> bool {
    &&& v.len() == ps.len()
    &&& forall|i: int| 0 <= i < v.len() ==> (#[trigger] v[i]).0@ == ps[i].0 && v[i].1@ == ps[i].1
}

/// Whether the exec pair list grew from `pre` to `post` by exactly `added`.
pub open spec fn pairs_extended(
    pre: Seq<(String, String)>,
    post: Seq<(String, String)>,
    added: Seq<(Seq<char>, Seq<char>)>,
) -> bool {
    &&& post.len() == pre.len() + added.len()
    &&& post.subrange(0, pre.len() as int) == pre
    &&& pairs_match(post.subrange(pre.len() as int, post.len() as int), added)
}

proof fn lemma_pairs_extend_trans(
    pre: Seq<(String, String)>,
    mid: Seq<(String, String)>,
    post: Seq<(String, String)>,
    a: Seq<(Seq<char>, Seq<char>)>,
    b: Seq<(Seq<char>, Seq<char>)>,
)
    requires
        pairs_extended(pre, mid, a),
        pairs_extended(mid, post, b),
    ensures
        pairs_extended(pre, post, a + b),
{
    assert(post.subrange(0, pre.len() as int) =~= pre);
    let tail = post.subrange(pre.len() as int, post.len() as int);
    assert forall|i: int| 0 <= i < tail.len() implies (#[trigger] tail[i]).0@ == (a + b)[i].0
        && tail[i].1@ == (a + b)[i].1 by {
        if i < a.len() {
            assert(tail[i] == mid.subrange(pre.len() as int, mid.len() as int)[i]);
        } else {
            assert(tail[i] == post.subrange(mid.len() as int, post.len() as int)[i - a.len()]);
        }
    }
}

/// Collects the (tag, identifier) pairs of the subtree, in pre-order.
#[verifier::loop_isolation(false)]
fn collect_id_pairs(e: &HTMLElement, prefix: &str, index: usize, out: &mut Vec<(String, String)>)
    ensures
        pairs_extended(old(out)@, final(out)@, spec_id_pairs(*e, prefix@, index as int)),
    decreases *e,
{
    let ghost e0 = *e;
    match e {
        HTMLElement::Text(_) => {
            let mut id = String::from_str(prefix);
            push_decimal(&mut id, index);
            out.push((String::new(), id));
            proof {
                assert(out@.subrange(0, old(out)@.len() as int) =~= old(out)@);
                assert(out@.subrange(old(out)@.len() as int, out@.len() as int) =~= seq![
                    out@.last(),
                ]);
            }
        },
        HTMLElement::Element { tag, attributes, children } => {
            let id = node_id(attributes, prefix, index);
            let mut child_prefix = id.clone();
            child_prefix.append(".");
            proof {
                reveal_strlit(".");
            }
            let ghost own = (tag@, id@);
            out.push((tag.clone(), id));
            let ghost mid0 = out@;
            proof {
                assert(out@.subrange(0, old(out)@.len() as int) =~= old(out)@);
                assert(out@.subrange(old(out)@.len() as int, out@.len() as int) =~= seq![
                    out@.last(),
                ]);
                assert(pairs_extended(old(out)@, out@, seq![own]));
                assert(out@.subrange(0, mid0.len() as int) =~= mid0);
                assert(out@.subrange(mid0.len() as int, out@.len() as int) =~= Seq::<(
                    String,
                    String,
                )>::empty());
            }
            let ghost mut acc: Seq<(Seq<char>, Seq<char>)> = Seq::empty();
            let mut k: usize = 0;
            while k < children.len()
                invariant
                    k <= children@.len(),
                    spec_id_pairs_list(children@, own.1 + "."@, 0) =~= acc + spec_id_pairs_list(
                        children@,
                        own.1 + "."@,
                        k as int,
                    ),
                    pairs_extended(mid0, out@, acc),
                decreases children@.len() - k,
            {
                let ghost pairs_mid = out@;
                let ghost acc0 = acc;
                proof {
                    assert(decreases_to!(e0 => e0->Element_children));
                    assert(decreases_to!(e0->Element_children => e0->Element_children@[k as int]));
                    assert(decreases_to!(e0 => children@[k as int]));
                }
                collect_id_pairs(&children[k], child_prefix.as_str(), k, out);
                proof {
                    let added = spec_id_pairs(children@[k as int], own.1 + "."@, k as int);
                    lemma_pairs_extend_trans(mid0, pairs_mid, out@, acc0, added);
                    acc = acc0 + added;
                    assert(spec_id_pairs_list(children@, own.1 + "."@, 0) =~= acc
                        + spec_id_pairs_list(children@, own.1 + "."@, k + 1));
                }
                k += 1;
            }
            proof {
                assert(spec_id_pairs_list(children@, own.1 + "."@, k as int) =~= Seq::<(
                    Seq<char>,
                    Seq<char>,
                )>::empty());
                assert(acc =~= spec_id_pairs_list(children@, own.1 + "."@, 0));
                lemma_pairs_extend_trans(old(out)@, mid0, out@, seq![own], acc);
                assert(seq![own] + acc =~= spec_id_pairs(e0, prefix@, index as int));
            }
        },
    }
}

/// Finds a pair whose identifier repeats an earlier pair's identifier.
fn find_duplicate_id(pairs: &Vec<(String, String)>) -> (r: Option<usize>)
    ensures
        match r {
            Some(j) => 0 <= j < pairs@.len() && exists|i: int|
                0 <= i < j && #[trigger] pairs@[i].1@ == pairs@[j as int].1@,
            None => forall|i: int, j: int|
                0 <= i < j < pairs@.len() ==> (#[trigger] pairs@[i]).1@ != (
                #[trigger] pairs@[j]).1@,
        },
{
    let mut j: usize = 1;
    while j < pairs.len()
        invariant
            1 <= j,
            forall|i2: int, j2: int|
                0 <= i2 < j2 < j ==> (#[trigger] pairs@[i2]).1@ != (#[trigger] pairs@[j2]).1@,
        decreases pairs@.len() - j,
    {
        let mut i: usize = 0;
        while i < j
            invariant
                i <= j < pairs@.len(),
                forall|i2: int| 0 <= i2 < i ==> #[trigger] pairs@[i2].1@ != pairs@[j as int].1@,
            decreases j - i,
        {
            if str_eq(pairs[i].1.as_str(), pairs[j].1.as_str()) {
                return Some(j);
            }
            i += 1;
        }
        j += 1;
    }
    None
}

impl HTMLElement {
    /// Builds the document node of this element under the inherited context,
    /// reading the element's interaction flags from `state`.  `prefix` and
    /// `index` give the node's tree position for identifier synthesis.
    ///
    /// Returns the built node exactly when the subtree meets the expected
    /// input shape, and a `MalformedInput` error naming an offending node's
    /// tag and identifier otherwise.
    #[verifier::loop_isolation(false)]
    pub fn into_dom_element(
        self,
        inherited: &InheritableStyle,
        state: &InteractionState,
        prefix: &str,
        index: usize,
    ) -> (r: Result<DOMElement, BuildError>)
        ensures
            match r {
                Ok(d) => spec_built(d, self, *inherited, *state, prefix@, index as int)
                    && spec_subtree_ok(self),
                Err(e) => !spec_subtree_ok(self) && (e matches BuildError::MalformedInput {
                    tag,
                    id,
                } && spec_offender(self, prefix@, index as int, tag@, id@)),
            },
        decreases self,
    {
        let has_txt = self.has_text();
        let ghost e0 = self;
        match self {
            HTMLElement::Text(text) => {
                let style = Style {
                    display: Display::Inline,
                    margin: Margin::default(),
                    font: inherited.font,
                    color: inherited.color,
                    text_decoration: inherited.text_decoration,
                };
                let mut id = String::from_str(prefix);
                push_decimal(&mut id, index);
                Ok(DOMElement::Text { style, text, actions: Vec::new(), id })
            },
            HTMLElement::Element { tag, attributes, children } => {
                let ghost g_tag = tag;
                let ghost g_attrs = attributes;
                let ghost g_children = children@;
                let id = node_id(&attributes, prefix, index);
                let flags = state.flags(id.as_str());
                let style = resolve_style(tag.as_str(), inherited, flags);
                let actions = DOMAction::from_html_element(tag.as_str(), &attributes);
                if str_eq(tag.as_str(), "a") && actions.len() == 0 {
                    proof {
                        assert(spec_urls(actions@).len() == actions@.len());
                        assert(spec_hrefs(attributes@).len() == 0);
                        assert(!spec_subtree_ok(e0));
                        assert(spec_offender(e0, prefix@, index as int, tag@, id@));
                    }
                    return Err(BuildError::MalformedInput { tag, id });
                }
                if str_eq(tag.as_str(), "h1") && !has_txt {
                    proof {
                        assert(spec_offender(e0, prefix@, index as int, tag@, id@));
                    }
                    return Err(BuildError::MalformedInput { tag, id });
                }
                let child_inherited = InheritableStyle::from_style(&style);
                let mut child_prefix = id.clone();
                child_prefix.append(".");
                proof {
                    reveal_strlit(".");
                }
                let mut rest = children;
                let total = rest.len();
                let mut out_children: Vec<DOMElement> = Vec::new();
                let mut k: usize = 0;
                while rest.len() > 0
                    invariant
                        k + rest@.len() == total,
                        total == g_children.len(),
                        rest@ =~= g_children.subrange(k as int, g_children.len() as int),
                        out_children@.len() == k,
                        child_prefix@ == id@ + "."@,
                        child_inherited == InheritableStyle::spec_from_style(style),
                        forall|j: int|
                            0 <= j < k ==> spec_built(
                                #[trigger] out_children@[j],
                                g_children[j],
                                child_inherited,
                                *state,
                                id@ + "."@,
                                j,
                            ),
                        forall|j: int| 0 <= j < k ==> spec_subtree_ok(#[trigger] g_children[j]),
                    decreases rest@.len(),
                {
                    let child = rest.remove(0);
                    proof {
                        assert(child == g_children[k as int]);
                        assert(e0->Element_children@ == g_children);
                        assert(decreases_to!(e0 => e0->Element_children));
                        assert(decreases_to!(e0->Element_children => e0->Element_children@[k as int]));
                        assert(decreases_to!(e0 => child));
                    }
                    match child.into_dom_element(&child_inherited, state, child_prefix.as_str(), k) {
                        Ok(d) => {
                            out_children.push(d);
                        },
                        Err(err) => {
                            proof {
                                assert(!spec_subtree_ok(g_children[k as int]));
                                assert(err matches BuildError::MalformedInput { tag: t, id: i2 }
                                    && spec_offender(
                                    g_children[k as int],
                                    id@ + "."@,
                                    k as int,
                                    t@,
                                    i2@,
                                ) && spec_offender(e0, prefix@, index as int, t@, i2@));
                            }
                            return Err(err);
                        },
                    }
                    k += 1;
                }
                let d = DOMElement::View { style, children: out_children, actions, id };
                proof {
                    assert(spec_built(d, e0, *inherited, *state, prefix@, index as int));
                    if g_tag@ == "h1"@ {
                        assert(e0.spec_has_text());
                    }
                    assert(spec_subtree_ok(e0));
                }
                Ok(d)
            },
        }
    }
}

/// A document: the styled trees built from the top-level input elements.
#[derive(Debug)]
pub struct DOM {
    pub elements: Vec<DOMElement>,
}

impl DOM {
    /// Builds the document from the input elements under the default
    /// inherited context, reading interaction flags from `state`.  Succeeds
    /// exactly when every top-level subtree meets the expected input shape
    /// and the document's node identifiers are pairwise distinct; a repeated
    /// identifier (two `id` attributes, or an `id` attribute colliding with
    /// a synthesized one) is malformed input naming the repeating node.
    #[verifier::loop_isolation(false)]
    pub fn construct_dom(html_elements: Vec<HTMLElement>, state: &InteractionState) -> (r: Result<
        DOM,
        BuildError,
    >)
        ensures
            match r {
                Ok(dom) => {
                    &&& dom.elements@.len() == html_elements@.len()
                    &&& forall|i: int|
                        0 <= i < html_elements@.len() ==> spec_built(
                            #[trigger] dom.elements@[i],
                            html_elements@[i],
                            InheritableStyle::spec_default(),
                            *state,
                            Seq::<char>::empty(),
                            i,
                        )
                    &&& forall|i: int|
                        0 <= i < html_elements@.len() ==> spec_subtree_ok(
                            #[trigger] html_elements@[i],
                        )
                    &&& spec_ids_unique(spec_doc_id_pairs(html_elements@))
                },
                Err(e) => e matches BuildError::MalformedInput { tag, id } && ({
                    ||| exists|i: int, j: int|
                        {
                            &&& 0 <= i < j < spec_doc_id_pairs(html_elements@).len()
                            &&& (#[trigger] spec_doc_id_pairs(html_elements@)[i]).1 == (
                            #[trigger] spec_doc_id_pairs(html_elements@)[j]).1
                            &&& spec_doc_id_pairs(html_elements@)[j].1 == id@
                            &&& spec_doc_id_pairs(html_elements@)[j].0 == tag@
                        }
                    ||| (exists|i: int|
                        0 <= i < html_elements@.len() && !spec_subtree_ok(
                            #[trigger] html_elements@[i],
                        )) && exists|i: int|
                        0 <= i < html_elements@.len() && spec_offender(
                            #[trigger] html_elements@[i],
                            Seq::<char>::empty(),
                            i,
                            tag@,
                            id@,
                        )
                }),
            },
    {
        let inherited = InheritableStyle::default();
        let ghost orig = html_elements@;
        proof {
            reveal_strlit("");
            assert(""@ =~= Seq::<char>::empty());
        }
        let mut pairs: Vec<(String, String)> = Vec::new();
        let ghost mut pacc: Seq<(Seq<char>, Seq<char>)> = Seq::empty();
        let mut p: usize = 0;
        proof {
            assert(pairs@.subrange(0, 0) =~= Seq::<(String, String)>::empty());
            assert(pairs@ =~= Seq::<(String, String)>::empty());
        }
        while p < html_elements.len()
            invariant
                p <= html_elements@.len(),
                spec_doc_id_pairs(html_elements@) =~= pacc + spec_id_pairs_list(
                    html_elements@,
                    Seq::<char>::empty(),
                    p as int,
                ),
                pairs_extended(Seq::<(String, String)>::empty(), pairs@, pacc),
            decreases html_elements@.len() - p,
        {
            let ghost pairs_mid = pairs@;
            let ghost pacc0 = pacc;
            collect_id_pairs(&html_elements[p], "", p, &mut pairs);
            proof {
                let added = spec_id_pairs(html_elements@[p as int], Seq::<char>::empty(), p as int);
                lemma_pairs_extend_trans(
                    Seq::<(String, String)>::empty(),
                    pairs_mid,
                    pairs@,
                    pacc0,
                    added,
                );
                pacc = pacc0 + added;
                assert(spec_doc_id_pairs(html_elements@) =~= pacc + spec_id_pairs_list(
                    html_elements@,
                    Seq::<char>::empty(),
                    p + 1,
                ));
            }
            p += 1;
        }
        proof {
            assert(spec_id_pairs_list(html_elements@, Seq::<char>::empty(), p as int) =~= Seq::<(
                Seq<char>,
                Seq<char>,
            )>::empty());
            assert(pacc =~= spec_doc_id_pairs(html_elements@));
            assert(pairs@.subrange(0, pairs@.len() as int) =~= pairs@);
            assert(pairs_match(pairs@, spec_doc_id_pairs(html_elements@)));
        }
        if let Some(j) = find_duplicate_id(&pairs) {
            let dup = &pairs[j];
            return Err(BuildError::MalformedInput { tag: dup.0.clone(), id: dup.1.clone() });
        }
        proof {
            let ps = spec_doc_id_pairs(html_elements@);
            assert forall|i: int, j: int| 0 <= i < j < ps.len() implies (#[trigger] ps[i]).1 != (
            #[trigger] ps[j]).1 by {
                assert(pairs@[i].1@ != pairs@[j].1@);
                assert(pairs@[i].1@ == ps[i].1 && pairs@[j].1@ == ps[j].1);
            }
            assert(spec_ids_unique(ps));
        }
        let mut rest = html_elements;
        let total = rest.len();
        let mut elements: Vec<DOMElement> = Vec::new();
        let mut k: usize = 0;
        while rest.len() > 0
            invariant
                k + rest@.len() == total,
                total == orig.len(),
                rest@ =~= orig.subrange(k as int, orig.len() as int),
                elements@.len() == k,
                forall|j: int|
                    0 <= j < k ==> spec_built(
                        #[trigger] elements@[j],
                        orig[j],
                        InheritableStyle::spec_default(),
                        *state,
                        Seq::<char>::empty(),
                        j,
                    ),
                forall|j: int| 0 <= j < k ==> spec_subtree_ok(#[trigger] orig[j]),
            decreases rest@.len(),
        {
            let element = rest.remove(0);
            proof {
                assert(element == orig[k as int]);
            }
            match element.into_dom_element(&inherited, state, "", k) {
                Ok(d) => {
                    elements.push(d);
                },
                Err(err) => {
                    proof {
                        assert(!spec_subtree_ok(orig[k as int]));
                        assert(err matches BuildError::MalformedInput { tag: t, id: i2 }
                            && spec_offender(orig[k as int], Seq::<char>::empty(), k as int, t@, i2@));
                    }
                    return Err(err);
                },
            }
            k += 1;
        }
        Ok(DOM { elements })
    }
}

} // verus!
