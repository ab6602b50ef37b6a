//! Per-element interaction state (hover and click flags) and the pointer
//! dispatch that reads a hit-test list.
//!
//! The state maps an element identifier to its flags; an identifier that was
//! never recorded has both flags false.  Recording a flag for one identifier
//! never changes another identifier's flags.

use vstd::prelude::*;
use vstd::string::StringExecFns;
use crate::dom::DOMAction;
use crate::geometry::{BoundingBox, Point};
use crate::style::InteractionFlags;
use crate::text::str_eq;

verus! {

/// The flags of the first entry with the given identifier, if any.
pub open spec fn spec_find_flags(
    entries: Seq<(String, InteractionFlags)>,
    id: Seq<char>,
) -> Option<InteractionFlags>
    decreases entries.len(),
{
    if entries.len() == 0 {
        None
    } else if entries[0].0@ == id {
        Some(entries[0].1)
    } else {
        spec_find_flags(entries.drop_first(), id)
    }
}

proof fn lemma_find_at(entries: Seq<(String, InteractionFlags)>, id: Seq<char>, k: int)
    requires
        0 <= k < entries.len(),
        forall|j: int| 0 <= j < k ==> #[trigger] entries[j].0@ != id,
        entries[k].0@ == id,
    ensures
        spec_find_flags(entries, id) == Some(entries[k].1),
    decreases entries.len(),
{
    if k > 0 {
        lemma_find_at(entries.drop_first(), id, k - 1);
    }
}

proof fn lemma_find_none(entries: Seq<(String, InteractionFlags)>, id: Seq<char>)
    requires
        forall|j: int| 0 <= j < entries.len() ==> #[trigger] entries[j].0@ != id,
    ensures
        spec_find_flags(entries, id) is None,
    decreases entries.len(),
{
    if entries.len() > 0 {
        lemma_find_none(entries.drop_first(), id);
    }
}

/// Updating the flags of entry `k` changes lookups only for that entry's
/// identifier, and only when no earlier entry shadows it.
proof fn lemma_find_update(
    entries: Seq<(String, InteractionFlags)>,
    k: int,
    e2: (String, InteractionFlags),
    id: Seq<char>,
)
    requires
        0 <= k < entries.len(),
        e2.0@ == entries[k].0@,
        forall|j: int| 0 <= j < k ==> #[trigger] entries[j].0@ != entries[k].0@,
    ensures
        spec_find_flags(entries.update(k, e2), id) == if id == entries[k].0@ {
            Some(e2.1)
        } else {
            spec_find_flags(entries, id)
        },
    decreases entries.len(),
{
    let s2 = entries.update(k, e2);
    if k == 0 {
        if id != entries[0].0@ {
            assert(s2.drop_first() =~= entries.drop_first());
        }
    } else {
        assert(s2.drop_first() =~= entries.drop_first().update(k - 1, e2));
        lemma_find_update(entries.drop_first(), k - 1, e2, id);
    }
}

/// Appending an entry changes lookups only for identifiers not found before.
proof fn lemma_find_push(
    entries: Seq<(String, InteractionFlags)>,
    e: (String, InteractionFlags),
    id: Seq<char>,
)
    ensures
        spec_find_flags(entries.push(e), id) == if spec_find_flags(entries, id) is Some {
            spec_find_flags(entries, id)
        } else if e.0@ == id {
            Some(e.1)
        } else {
            None
        },
    decreases entries.len(),
{
    let s2 = entries.push(e);
    assert(s2.len() == entries.len() + 1);
    if entries.len() == 0 {
        assert(s2[0] == e);
        assert(s2.drop_first() =~= Seq::<(String, InteractionFlags)>::empty());
        assert(spec_find_flags(s2.drop_first(), id) is None);
        assert(spec_find_flags(s2, id) == if e.0@ == id {
            Some(e.1)
        } else {
            None
        });
    } else {
        assert(s2[0] == entries[0]);
        assert(s2.drop_first() =~= entries.drop_first().push(e));
        lemma_find_push(entries.drop_first(), e, id);
        assert(spec_find_flags(s2, id) == if s2[0].0@ == id {
            Some(s2[0].1)
        } else {
            spec_find_flags(s2.drop_first(), id)
        });
    }
}

/// The hover and click flags of each element of a document, keyed by the
/// element's identifier.
pub struct InteractionState {
    entries: Vec<(String, InteractionFlags)>,
}

impl InteractionState {
    /// The flags recorded for an identifier; both false when never recorded.
    pub closed spec fn spec_flags(&self, id: Seq<char>) -> InteractionFlags {
        match spec_find_flags(self.entries@, id) {
            Some(f) => f,
            None => InteractionFlags::spec_default(),
        }
    }

    /// An empty state: every identifier reads as neither hovered nor clicked.
    pub fn new() -> (r: InteractionState)
        ensures
            forall|id: Seq<char>| r.spec_flags(id) == InteractionFlags::spec_default(),
    {
        InteractionState { entries: Vec::new() }
    }

    /// Finds the index of the first entry for `id`.
    fn find_index(&self, id: &str) -> (r: Option<usize>)
        ensures
            match r {
                Some(k) => {
                    &&& 0 <= k < self.entries@.len()
                    &&& self.entries@[k as int].0@ == id@
                    &&& forall|j: int| 0 <= j < k ==> #[trigger] self.entries@[j].0@ != id@
                    &&& spec_find_flags(self.entries@, id@) == Some(self.entries@[k as int].1)
                },
                None => spec_find_flags(self.entries@, id@) is None,
            },
    {
        let mut i: usize = 0;
        while i < self.entries.len()
            invariant
                i <= self.entries@.len(),
                forall|j: int| 0 <= j < i ==> #[trigger] self.entries@[j].0@ != id@,
            decreases self.entries@.len() - i,
        {
            if str_eq(self.entries[i].0.as_str(), id) {
                proof {
                    lemma_find_at(self.entries@, id@, i as int);
                }
                return Some(i);
            }
            i += 1;
        }
        proof {
            lemma_find_none(self.entries@, id@);
        }
        None
    }

    /// Replaces the flags of the identifier (inserting an entry if absent).
    fn set_flags(&mut self, id: &str, flags: InteractionFlags)
        ensures
            final(self).spec_flags(id@) == flags,
            forall|other: Seq<char>|
                other != id@ ==> final(self).spec_flags(other) == old(self).spec_flags(other),
    {
        match self.find_index(id) {
            Some(k) => {
                let ghost entries0 = self.entries@;
                let entry = self.entries.remove(k);
                self.entries.insert(k, (entry.0, flags));
                proof {
                    assert(self.entries@ =~= entries0.update(k as int, (entry.0, flags)));
                    assert forall|other: Seq<char>|
                        #[trigger] spec_find_flags(self.entries@, other) == if other
                            == entries0[k as int].0@ {
                            Some(flags)
                        } else {
                            spec_find_flags(entries0, other)
                        } by {
                        lemma_find_update(entries0, k as int, (entry.0, flags), other);
                    }
                }
            },
            None => {
                let ghost entries0 = self.entries@;
                let key = String::from_str(id);
                self.entries.push((key, flags));
                proof {
                    assert forall|other: Seq<char>|
                        #[trigger] spec_find_flags(self.entries@, other) == if other == id@ {
                            Some(flags)
                        } else {
                            spec_find_flags(entries0, other)
                        } by {
                        lemma_find_push(entries0, (key, flags), other);
                    }
                }
            },
        }
    }

    /// Reads both flags of an identifier.
    pub fn flags(&self, id: &str) -> (r: InteractionFlags)
        ensures
            r == self.spec_flags(id@),
    {
        match self.find_index(id) {
            Some(k) => self.entries[k].1,
            None => InteractionFlags { hovered: false, clicked: false },
        }
    }

    /// Reads the hovered flag of an identifier.
    pub fn is_hovered(&self, id: &str) -> (r: bool)
        ensures
            r == self.spec_flags(id@).hovered,
    {
        match self.find_index(id) {
            Some(k) => self.entries[k].1.hovered,
            None => false,
        }
    }

    /// Reads the clicked flag of an identifier.
    pub fn is_clicked(&self, id: &str) -> (r: bool)
        ensures
            r == self.spec_flags(id@).clicked,
    {
        match self.find_index(id) {
            Some(k) => self.entries[k].1.clicked,
            None => false,
        }
    }

    /// Sets the hovered flag of an identifier; no other identifier changes.
    pub fn record_hover(&mut self, id: &str)
        ensures
            final(self).spec_flags(id@) == (InteractionFlags {
                hovered: true,
                clicked: old(self).spec_flags(id@).clicked,
            }),
            forall|other: Seq<char>|
                other != id@ ==> final(self).spec_flags(other) == old(self).spec_flags(other),
    {
        let clicked = self.is_clicked(id);
        self.set_flags(id, InteractionFlags { hovered: true, clicked });
    }

    /// Sets the clicked flag of an identifier; no other identifier changes.
    pub fn record_click(&mut self, id: &str)
        ensures
            final(self).spec_flags(id@) == (InteractionFlags {
                hovered: old(self).spec_flags(id@).hovered,
                clicked: true,
            }),
            forall|other: Seq<char>|
                other != id@ ==> final(self).spec_flags(other) == old(self).spec_flags(other),
    {
        let hovered = self.is_hovered(id);
        self.set_flags(id, InteractionFlags { hovered, clicked: true });
    }
}

} // verus!

verus! {

/// The actions of the hit-test entries from position `i` on whose bounding
/// box contains the pointer, concatenated in list order.
pub open spec fn spec_fired_from(
    hits: Seq<(BoundingBox, Vec<DOMAction>, String)>,
    pointer: Point,
    i: int,
) -> Seq<DOMAction>
    decreases hits.len() - i,
{
    if i < 0 || i >= hits.len() {
        Seq::empty()
    } else {
        (if hits[i].0.spec_contains(pointer) {
            hits[i].1@
        } else {
            Seq::empty()
        }) + spec_fired_from(hits, pointer, i + 1)
    }
}

/// All actions fired by a click at `pointer` against a hit-test list.
pub open spec fn spec_fired(
    hits: Seq<(BoundingBox, Vec<DOMAction>, String)>,
    pointer: Point,
) -> Seq<DOMAction> {
    spec_fired_from(hits, pointer, 0)
}

/// Whether some entry among the first `k` has the given identifier and a
/// bounding box containing the pointer.
pub open spec fn spec_hit_upto(
    hits: Seq<(BoundingBox, Vec<DOMAction>, String)>,
    pointer: Point,
    id: Seq<char>,
    k: int,
) -> bool {
    exists|j: int|
        0 <= j < k && (#[trigger] hits[j]).0.spec_contains(pointer) && hits[j].2@ == id
}

/// Whether some entry of the list has the given identifier and a bounding
/// box containing the pointer.
pub open spec fn spec_hit(
    hits: Seq<(BoundingBox, Vec<DOMAction>, String)>,
    pointer: Point,
    id: Seq<char>,
) -> bool {
    spec_hit_upto(hits, pointer, id, hits.len() as int)
}

/// Dispatches a click at `pointer` against a hit-test list: for every entry
/// whose box contains the pointer, its actions fire (in list order) and its
/// identifier is recorded as clicked.  No other identifier's flags change,
/// and hovered flags are untouched.
#[verifier::loop_isolation(false)]
pub fn dispatch_click(
    hits: &Vec<(BoundingBox, Vec<DOMAction>, String)>,
    pointer: Point,
    state: &mut InteractionState,
) -> (fired: Vec<DOMAction>)
    ensures
        fired@ == spec_fired(hits@, pointer),
        forall|id: Seq<char>|
            spec_hit(hits@, pointer, id) ==> final(state).spec_flags(id) == (InteractionFlags {
                hovered: old(state).spec_flags(id).hovered,
                clicked: true,
            }),
        forall|id: Seq<char>|
            !spec_hit(hits@, pointer, id) ==> final(state).spec_flags(id) == old(state).spec_flags(
                id,
            ),
{
    let mut fired: Vec<DOMAction> = Vec::new();
    let mut i: usize = 0;
    proof {
        assert(fired@ + spec_fired_from(hits@, pointer, 0) =~= spec_fired_from(hits@, pointer, 0));
    }
    while i < hits.len()
        invariant
            i <= hits@.len(),
            spec_fired(hits@, pointer) == fired@ + spec_fired_from(hits@, pointer, i as int),
            forall|id: Seq<char>|
                spec_hit_upto(hits@, pointer, id, i as int) ==> state.spec_flags(id)
                    == (InteractionFlags {
                    hovered: old(state).spec_flags(id).hovered,
                    clicked: true,
                }),
            forall|id: Seq<char>|
                !spec_hit_upto(hits@, pointer, id, i as int) ==> state.spec_flags(id) == old(
                    state,
                ).spec_flags(id),
        decreases hits@.len() - i,
    {
        let ghost fired0 = fired@;
        if hits[i].0.contains(pointer) {
            let mut j: usize = 0;
            while j < hits[i].1.len()
                invariant
                    j <= hits@[i as int].1@.len(),
                    fired@ =~= fired0 + hits@[i as int].1@.subrange(0, j as int),
                decreases hits@[i as int].1@.len() - j,
            {
                fired.push(hits[i].1[j].clone_action());
                j += 1;
            }
            proof {
                assert(fired@ =~= fired0 + hits@[i as int].1@);
            }
            let ghost pre = *state;
            state.record_click(hits[i].2.as_str());
            proof {
                let id_i = hits@[i as int].2@;
                assert forall|id: Seq<char>|
                    spec_hit_upto(hits@, pointer, id, i + 1) implies state.spec_flags(id)
                    == (InteractionFlags {
                    hovered: old(state).spec_flags(id).hovered,
                    clicked: true,
                }) by {
                    if id == id_i {
                        assert(pre.spec_flags(id).hovered == old(state).spec_flags(id).hovered);
                    } else {
                        assert(spec_hit_upto(hits@, pointer, id, i as int));
                    }
                }
                assert forall|id: Seq<char>|
                    !spec_hit_upto(hits@, pointer, id, i + 1) implies state.spec_flags(id) == old(
                    state,
                ).spec_flags(id) by {
                    assert(id != id_i);
                    assert(!spec_hit_upto(hits@, pointer, id, i as int));
                }
            }
        } else {
            proof {
                assert(fired@ + (Seq::<DOMAction>::empty() + spec_fired_from(
                    hits@,
                    pointer,
                    i + 1,
                )) =~= fired@ + spec_fired_from(hits@, pointer, i + 1));
                assert forall|id: Seq<char>|
                    spec_hit_upto(hits@, pointer, id, i + 1) == spec_hit_upto(
                    hits@,
                    pointer,
                    id,
                    i as int,
                ) by {
                    if spec_hit_upto(hits@, pointer, id, i + 1) {
                        let j = choose|j: int|
                            0 <= j < i + 1 && (#[trigger] hits@[j]).0.spec_contains(pointer)
                                && hits@[j].2@ == id;
                        assert(j < i);
                    }
                }
            }
        }
        i += 1;
    }
    proof {
        assert(fired@ + Seq::<DOMAction>::empty() =~= fired@);
    }
    fired
}

/// Records a hover for every entry whose box contains the pointer; clicked
/// flags and all other identifiers are untouched.
#[verifier::loop_isolation(false)]
pub fn process_hover(
    hits: &Vec<(BoundingBox, Vec<DOMAction>, String)>,
    pointer: Point,
    state: &mut InteractionState,
)
    ensures
        forall|id: Seq<char>|
            spec_hit(hits@, pointer, id) ==> final(state).spec_flags(id) == (InteractionFlags {
                hovered: true,
                clicked: old(state).spec_flags(id).clicked,
            }),
        forall|id: Seq<char>|
            !spec_hit(hits@, pointer, id) ==> final(state).spec_flags(id) == old(state).spec_flags(
                id,
            ),
{
    let mut i: usize = 0;
    while i < hits.len()
        invariant
            i <= hits@.len(),
            forall|id: Seq<char>|
                spec_hit_upto(hits@, pointer, id, i as int) ==> state.spec_flags(id)
                    == (InteractionFlags {
                    hovered: true,
                    clicked: old(state).spec_flags(id).clicked,
                }),
            forall|id: Seq<char>|
                !spec_hit_upto(hits@, pointer, id, i as int) ==> state.spec_flags(id) == old(
                    state,
                ).spec_flags(id),
        decreases hits@.len() - i,
    {
        if hits[i].0.contains(pointer) {
            let ghost pre = *state;
            state.record_hover(hits[i].2.as_str());
            proof {
                let id_i = hits@[i as int].2@;
                assert forall|id: Seq<char>|
                    spec_hit_upto(hits@, pointer, id, i + 1) implies state.spec_flags(id)
                    == (InteractionFlags {
                    hovered: true,
                    clicked: old(state).spec_flags(id).clicked,
                }) by {
                    if id == id_i {
                        assert(pre.spec_flags(id).clicked == old(state).spec_flags(id).clicked);
                    } else {
                        assert(spec_hit_upto(hits@, pointer, id, i as int));
                    }
                }
                assert forall|id: Seq<char>|
                    !spec_hit_upto(hits@, pointer, id, i + 1) implies state.spec_flags(id) == old(
                    state,
                ).spec_flags(id) by {
                    assert(id != id_i);
                    assert(!spec_hit_upto(hits@, pointer, id, i as int));
                }
            }
        } else {
            proof {
                assert forall|id: Seq<char>|
                    spec_hit_upto(hits@, pointer, id, i + 1) == spec_hit_upto(
                    hits@,
                    pointer,
                    id,
                    i as int,
                ) by {
                    if spec_hit_upto(hits@, pointer, id, i + 1) {
                        let j = choose|j: int|
                            0 <= j < i + 1 && (#[trigger] hits@[j]).0.spec_contains(pointer)
                                && hits@[j].2@ == id;
                        assert(j < i);
                    }
                }
            }
        }
        i += 1;
    }
}

} // verus!
