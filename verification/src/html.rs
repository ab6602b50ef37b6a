//! The input markup tree.
//!
//! An element carries a tag, an ordered attribute list and ordered children;
//! a text node carries a literal string.  The tree is produced by a parser
//! (or built directly) and is immutable input to the document builder.

use vstd::prelude::*;

verus! {

/// A node of the input markup tree.
#[derive(Debug)]
pub enum HTMLElement {
    Element { tag: String, attributes: Vec<(String, String)>, children: Vec<HTMLElement> },
    Text(String),
}

impl HTMLElement {
    /// Builds an element node from its tag, attributes and children.
    pub fn new(tag: String, attributes: Vec<(String, String)>, children: Vec<HTMLElement>) -> (r:
        Self)
        ensures
            r == (HTMLElement::Element { tag, attributes, children }),
    {
        HTMLElement::Element { tag, attributes, children }
    }

    /// Whether the subtree holds any literal text node.
    pub open spec fn spec_has_text(self) -> bool
        decreases self,
    {
        match self {
            HTMLElement::Text(_) => true,
            HTMLElement::Element { children, .. } => exists|i: int|
                0 <= i < children@.len() && children@[i].spec_has_text(),
        }
    }

    /// Whether the subtree holds any literal text node.
    pub fn has_text(&self) -> (r: bool)
        ensures
            r == self.spec_has_text(),
        decreases *self,
    {
        match self {
            HTMLElement::Text(_) => true,
            HTMLElement::Element { children, .. } => {
                let mut i: usize = 0;
                while i < children.len()
                    invariant
                        i <= children@.len(),
                        forall|j: int| 0 <= j < i ==> !children@[j].spec_has_text(),
                        *self == (HTMLElement::Element {
                            tag: self->tag,
                            attributes: self->attributes,
                            children: *children,
                        }),
                    decreases children@.len() - i,
                {
                    proof {
                        assert(*children == self->Element_children);
                        assert(decreases_to!(*self => self->Element_children));
                        assert(decreases_to!(self->Element_children => self->Element_children@[i as int]));
                        assert(decreases_to!(*self => children@[i as int]));
                    }
                    if children[i].has_text() {
                        proof {
                            assert(0 <= i < children@.len() && children@[i as int].spec_has_text());
                        }
                        return true;
                    }
                    i += 1;
                }
                false
            },
        }
    }
}

} // verus!
