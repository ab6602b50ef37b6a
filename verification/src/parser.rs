//! A small markup parser producing the input element tree.
//!
//! The grammar: a document is a sequence of nodes; a node is either a text
//! run (a maximal run of characters other than `<`) or an element
//! `<tag k="v" ...>children</tag>`.  A run of nothing but whitespace only
//! separates nodes and yields no text node, so a whitespace-only document is
//! empty.  Attribute values are double-quoted and may not contain a quote;
//! tag and attribute names run until whitespace or a delimiter.  The parser
//! either returns the element tree or rejects the whole input.
//!
//! The specification-level parser (`spec_parse`) is the reference: `parse`
//! returns `Ok` exactly when it accepts, with the tree it denotes.  Inner
//! recursions carry a positive-progress guard (`.. <= i`) so that
//! termination is evident; parsing always advances, so the guards never
//! fire.

use vstd::prelude::*;
use vstd::string::StrSliceExecFns;
use vstd::string::StringExecFns;
use crate::html::HTMLElement;
use crate::text::{is_space, is_space_char, str_eq};

verus! {

/// A parse failure: the input does not follow the grammar.
#[derive(Debug, Clone, Copy, PartialEq, Eq, Structural)]
pub enum ParseError {
    Malformed,
}

/// The specification-level element tree (strings as character sequences).
pub enum NodeModel {
    Element { tag: Seq<char>, attributes: Seq<(Seq<char>, Seq<char>)>, children: Seq<NodeModel> },
    Text(Seq<char>),
}

/// The specification-level view of a parsed element.
pub open spec fn node_view(e: HTMLElement) -> NodeModel
    decreases e, 0int,
    via node_view_dec
{
    match e {
        HTMLElement::Text(t) => NodeModel::Text(t@),
        HTMLElement::Element { tag, attributes, children } => NodeModel::Element {
            tag: tag@,
            attributes: attributes@.map_values(|a: (String, String)| (a.0@, a.1@)),
            children: nodes_view(children@),
        },
    }
}

#[via_fn]
proof fn node_view_dec(e: HTMLElement) {
    if e is Element {
        assert(decreases_to!(e => e->Element_children));
        assert(decreases_to!(e->Element_children => e->Element_children@));
        assert(decreases_to!(e => e->Element_children@));
    }
}

/// The views of a sequence of parsed elements.
pub open spec fn nodes_view(v: Seq<HTMLElement>) -> Seq<NodeModel>
    decreases v, 1int,
    via nodes_view_dec
{
    if v.len() == 0 {
        Seq::empty()
    } else {
        seq![node_view(v[0])] + nodes_view(v.drop_first())
    }
}

#[via_fn]
proof fn nodes_view_dec(v: Seq<HTMLElement>) {
    if v.len() > 0 {
        vstd::seq::axiom_seq_subrange_decreases::<HTMLElement>(v, 1, v.len() as int);
        assert(v.drop_first() =~= v.subrange(1, v.len() as int));
        assert(decreases_to!(v => v.drop_first()));
    }
}

/// Whether a character may appear in a tag or attribute name.
pub open spec fn is_name_char(c: char) -> bool {
    !(is_space_char(c) || c == '<' || c == '>' || c == '/' || c == '=' || c == '"')
}

/// Whether a character may appear in a text run.
pub open spec fn is_text_char(c: char) -> bool {
    c != '<'
}

/// Whether a character may appear in an attribute value.
pub open spec fn is_value_char(c: char) -> bool {
    c != '"'
}

/// The length of the run of characters satisfying `pred` starting at `i`.
pub open spec fn spec_run_len(s: Seq<char>, i: int, pred: spec_fn(char) -> bool) -> int
    decreases s.len() - i,
{
    if i < 0 || i >= s.len() || !pred(s[i]) {
        0
    } else {
        1 + spec_run_len(s, i + 1, pred)
    }
}

pub proof fn lemma_run_len_bounds(s: Seq<char>, i: int, pred: spec_fn(char) -> bool)
    requires
        0 <= i <= s.len(),
    ensures
        0 <= spec_run_len(s, i, pred) <= s.len() - i,
        i < s.len() && pred(s[i]) ==> spec_run_len(s, i, pred) >= 1,
    decreases s.len() - i,
{
    if i < s.len() && pred(s[i]) {
        lemma_run_len_bounds(s, i + 1, pred);
    }
}

/// A run of known length determines `spec_run_len` exactly.
pub proof fn lemma_run_len_exact(s: Seq<char>, i: int, k: int, pred: spec_fn(char) -> bool)
    requires
        0 <= i <= k <= s.len(),
        forall|j: int| i <= j < k ==> pred(#[trigger] s[j]),
        k < s.len() ==> !pred(s[k]),
    ensures
        spec_run_len(s, i, pred) == k - i,
    decreases s.len() - i,
{
    if i < k {
        lemma_run_len_exact(s, i + 1, k, pred);
    }
}

/// Parses the attribute list of an open tag from position `i` (whitespace,
/// then `name="value"` pairs) up to the closing `>`, whose position is
/// returned with the attributes.
pub open spec fn spec_parse_attrs(s: Seq<char>, i: int) -> Option<(Seq<(Seq<char>, Seq<char>)>, int)>
    decreases s.len() - i,
{
    if i < 0 || i > s.len() {
        None
    } else {
        let k = i + spec_run_len(s, i, |c: char| is_space_char(c));
        if k >= s.len() {
            None
        } else if s[k] == '>' {
            Some((Seq::empty(), k))
        } else {
            let nl = spec_run_len(s, k, |c: char| is_name_char(c));
            if nl == 0 {
                None
            } else {
                let p = k + nl;
                if p + 1 >= s.len() || s[p] != '=' || s[p + 1] != '"' {
                    None
                } else {
                    let vl = spec_run_len(s, p + 2, |c: char| is_value_char(c));
                    let q = p + 2 + vl;
                    if q >= s.len() || q + 1 <= i {
                        None
                    } else {
                        match spec_parse_attrs(s, q + 1) {
                            None => None,
                            Some((rest, gt)) => Some(
                                (
                                    seq![(s.subrange(k, p), s.subrange(p + 2, q))] + rest,
                                    gt,
                                ),
                            ),
                        }
                    }
                }
            }
        }
    }
}

/// Parses a sequence of nodes from position `i`, stopping at the end of the
/// input or before a closing tag (`</`).  A whitespace-only text run is
/// consumed without yielding a node.
pub open spec fn spec_parse_nodes(s: Seq<char>, i: int) -> Option<(Seq<NodeModel>, int)>
    decreases s.len() - i, 1int,
    via spec_parse_nodes_dec
{
    if i < 0 || i >= s.len() {
        Some((Seq::empty(), i))
    } else if s[i] == '<' {
        if i + 1 < s.len() && s[i + 1] == '/' {
            Some((Seq::empty(), i))
        } else {
            match spec_parse_element(s, i) {
                None => None,
                Some((el, j)) => {
                    if j <= i || j > s.len() {
                        None
                    } else {
                        match spec_parse_nodes(s, j) {
                            None => None,
                            Some((rest, k)) => Some((seq![el] + rest, k)),
                        }
                    }
                },
            }
        }
    } else {
        let t = spec_run_len(s, i, |c: char| is_text_char(c));
        let ws = spec_run_len(s, i, |c: char| is_space_char(c));
        if t <= 0 {
            None
        } else if ws == t {
            spec_parse_nodes(s, i + t)
        } else {
            match spec_parse_nodes(s, i + t) {
                None => None,
                Some((rest, k)) => Some((seq![NodeModel::Text(s.subrange(i, i + t))] + rest, k)),
            }
        }
    }
}

#[via_fn]
proof fn spec_parse_nodes_dec(s: Seq<char>, i: int) {
    if 0 <= i < s.len() && s[i] != '<' {
        lemma_run_len_bounds(s, i, |c: char| is_text_char(c));
    }
}

/// Parses one element `<tag attrs>children</tag>` from position `i`, which
/// must hold `<`.
pub open spec fn spec_parse_element(s: Seq<char>, i: int) -> Option<(NodeModel, int)>
    decreases s.len() - i, 0int,
{
    if i < 0 || i >= s.len() || s[i] != '<' {
        None
    } else {
        let nl = spec_run_len(s, i + 1, |c: char| is_name_char(c));
        if nl == 0 {
            None
        } else {
            let tag = s.subrange(i + 1, i + 1 + nl);
            match spec_parse_attrs(s, i + 1 + nl) {
                None => None,
                Some((attrs, gt)) => {
                    if gt + 1 <= i || gt >= s.len() {
                        None
                    } else {
                        match spec_parse_nodes(s, gt + 1) {
                            None => None,
                            Some((children, m)) => {
                                if m + 1 >= s.len() || s[m] != '<' || s[m + 1] != '/' {
                                    None
                                } else {
                                    let cl = spec_run_len(s, m + 2, |c: char| is_name_char(c));
                                    if cl == nl && s.subrange(m + 2, m + 2 + cl) == tag && m + 2
                                        + cl < s.len() && s[m + 2 + cl] == '>' {
                                        Some(
                                            (
                                                NodeModel::Element { tag, attributes: attrs, children },
                                                m + 2 + cl + 1,
                                            ),
                                        )
                                    } else {
                                        None
                                    }
                                }
                            },
                        }
                    }
                },
            }
        }
    }
}

/// What parsing a whole document yields: the node sequence, provided the
/// nodes consume the entire input.
pub open spec fn spec_parse(s: Seq<char>) -> Option<Seq<NodeModel>> {
    match spec_parse_nodes(s, 0) {
        None => None,
        Some((nodes, k)) => if k == s.len() {
            Some(nodes)
        } else {
            None
        },
    }
}

fn is_name_char_exec(c: char) -> (r: bool)
    ensures
        r == is_name_char(c),
{
    !(is_space(c) || c == '<' || c == '>' || c == '/' || c == '=' || c == '"')
}

/// Scans the run of name characters starting at `i`; returns its end.
fn scan_name(s: &str, i: usize) -> (r: usize)
    requires
        i <= s@.len(),
    ensures
        i <= r <= s@.len(),
        r == i + spec_run_len(s@, i as int, |c: char| is_name_char(c)),
{
    let n = s.unicode_len();
    let mut j = i;
    while j < n && is_name_char_exec(s.get_char(j))
        invariant
            i <= j <= n,
            n == s@.len(),
            forall|l: int| i <= l < j ==> is_name_char(#[trigger] s@[l]),
        decreases n - j,
    {
        j += 1;
    }
    proof {
        lemma_run_len_exact(s@, i as int, j as int, |c: char| is_name_char(c));
    }
    j
}

/// Scans the run of whitespace starting at `i`; returns its end.
fn scan_ws(s: &str, i: usize) -> (r: usize)
    requires
        i <= s@.len(),
    ensures
        i <= r <= s@.len(),
        r == i + spec_run_len(s@, i as int, |c: char| is_space_char(c)),
{
    let n = s.unicode_len();
    let mut j = i;
    while j < n && is_space(s.get_char(j))
        invariant
            i <= j <= n,
            n == s@.len(),
            forall|l: int| i <= l < j ==> is_space_char(#[trigger] s@[l]),
        decreases n - j,
    {
        j += 1;
    }
    proof {
        lemma_run_len_exact(s@, i as int, j as int, |c: char| is_space_char(c));
    }
    j
}

/// Scans the run of attribute-value characters starting at `i`.
fn scan_value(s: &str, i: usize) -> (r: usize)
    requires
        i <= s@.len(),
    ensures
        i <= r <= s@.len(),
        r == i + spec_run_len(s@, i as int, |c: char| is_value_char(c)),
{
    let n = s.unicode_len();
    let mut j = i;
    while j < n && s.get_char(j) != '"'
        invariant
            i <= j <= n,
            n == s@.len(),
            forall|l: int| i <= l < j ==> is_value_char(#[trigger] s@[l]),
        decreases n - j,
    {
        j += 1;
    }
    proof {
        lemma_run_len_exact(s@, i as int, j as int, |c: char| is_value_char(c));
    }
    j
}

/// Scans the run of text characters starting at `i`.
fn scan_text(s: &str, i: usize) -> (r: usize)
    requires
        i <= s@.len(),
    ensures
        i <= r <= s@.len(),
        r == i + spec_run_len(s@, i as int, |c: char| is_text_char(c)),
{
    let n = s.unicode_len();
    let mut j = i;
    while j < n && s.get_char(j) != '<'
        invariant
            i <= j <= n,
            n == s@.len(),
            forall|l: int| i <= l < j ==> is_text_char(#[trigger] s@[l]),
        decreases n - j,
    {
        j += 1;
    }
    proof {
        lemma_run_len_exact(s@, i as int, j as int, |c: char| is_text_char(c));
    }
    j
}

/// Parses the attribute list from `i` up to the closing `>`.
fn parse_attrs(s: &str, i: usize) -> (r: Result<(Vec<(String, String)>, usize), ParseError>)
    requires
        i <= s@.len(),
    ensures
        match r {
            Ok((attrs, gt)) => {
                &&& spec_parse_attrs(s@, i as int) == Some(
                    (attrs@.map_values(|a: (String, String)| (a.0@, a.1@)), gt as int),
                )
                &&& i <= gt < s@.len()
            },
            Err(_) => spec_parse_attrs(s@, i as int) is None,
        },
    decreases s@.len() - i,
{
    let n = s.unicode_len();
    let k = scan_ws(s, i);
    if k >= n {
        return Err(ParseError::Malformed);
    }
    if s.get_char(k) == '>' {
        let attrs: Vec<(String, String)> = Vec::new();
        proof {
            assert(attrs@.map_values(|a: (String, String)| (a.0@, a.1@)) =~= Seq::<(
                Seq<char>,
                Seq<char>,
            )>::empty());
        }
        return Ok((attrs, k));
    }
    let p = scan_name(s, k);
    if p == k {
        return Err(ParseError::Malformed);
    }
    if p >= n || n - p < 2 {
        return Err(ParseError::Malformed);
    }
    if s.get_char(p) != '=' || s.get_char(p + 1) != '"' {
        return Err(ParseError::Malformed);
    }
    let q = scan_value(s, p + 2);
    if q >= n {
        return Err(ParseError::Malformed);
    }
    let name = String::from_str(s.substring_char(k, p));
    let value = String::from_str(s.substring_char(p + 2, q));
    match parse_attrs(s, q + 1) {
        Ok((mut rest, gt)) => {
            rest.insert(0, (name, value));
            proof {
                assert(rest@.map_values(|a: (String, String)| (a.0@, a.1@)) =~= seq![
                    (s@.subrange(k as int, p as int), s@.subrange(p + 2, q as int)),
                ] + rest@.drop_first().map_values(|a: (String, String)| (a.0@, a.1@)));
            }
            Ok((rest, gt))
        },
        Err(e) => Err(e),
    }
}

/// Parses a sequence of nodes from `i`, stopping at the end of the input or
/// before a closing tag.
fn parse_nodes(s: &str, i: usize) -> (r: Result<(Vec<HTMLElement>, usize), ParseError>)
    requires
        i <= s@.len(),
    ensures
        match r {
            Ok((nodes, k)) => {
                &&& spec_parse_nodes(s@, i as int) == Some((nodes_view(nodes@), k as int))
                &&& i <= k <= s@.len()
            },
            Err(_) => spec_parse_nodes(s@, i as int) is None,
        },
    decreases s@.len() - i, 1int,
{
    let n = s.unicode_len();
    if i >= n {
        let nodes: Vec<HTMLElement> = Vec::new();
        proof {
            assert(nodes_view(nodes@) =~= Seq::<NodeModel>::empty());
        }
        return Ok((nodes, i));
    }
    if s.get_char(i) == '<' {
        if i + 1 < n && s.get_char(i + 1) == '/' {
            let nodes: Vec<HTMLElement> = Vec::new();
            proof {
                assert(nodes_view(nodes@) =~= Seq::<NodeModel>::empty());
            }
            return Ok((nodes, i));
        }
        match parse_element(s, i) {
            Err(e) => Err(e),
            Ok((el, j)) => {
                if j <= i {
                    return Err(ParseError::Malformed);
                }
                match parse_nodes(s, j) {
                    Err(e) => Err(e),
                    Ok((mut rest, k)) => {
                        let ghost rest0 = rest@;
                        let ghost el0 = el;
                        rest.insert(0, el);
                        proof {
                            assert(rest@ =~= seq![el0] + rest0);
                            assert(rest@[0] == el0);
                            assert(rest@.drop_first() =~= rest0);
                            assert(nodes_view(rest@) =~= seq![node_view(el0)] + nodes_view(rest0));
                        }
                        Ok((rest, k))
                    },
                }
            },
        }
    } else {
        let t = scan_text(s, i);
        let w = scan_ws(s, i);
        proof {
            lemma_run_len_bounds(s@, i as int, |c: char| is_text_char(c));
        }
        if t <= i {
            return Err(ParseError::Malformed);
        }
        if w == t {
            return parse_nodes(s, t);
        }
        let text = String::from_str(s.substring_char(i, t));
        match parse_nodes(s, t) {
            Err(e) => Err(e),
            Ok((mut rest, k)) => {
                let ghost rest0 = rest@;
                let node = HTMLElement::Text(text);
                let ghost node0 = node;
                rest.insert(0, node);
                proof {
                    assert(rest@ =~= seq![node0] + rest0);
                    assert(rest@[0] == node0);
                    assert(rest@.drop_first() =~= rest0);
                    assert(nodes_view(rest@) =~= seq![node_view(node0)] + nodes_view(rest0));
                }
                Ok((rest, k))
            },
        }
    }
}

/// Parses one element `<tag attrs>children</tag>` from `i`.
fn parse_element(s: &str, i: usize) -> (r: Result<(HTMLElement, usize), ParseError>)
    requires
        i <= s@.len(),
    ensures
        match r {
            Ok((el, j)) => {
                &&& spec_parse_element(s@, i as int) == Some((node_view(el), j as int))
                &&& i <= j <= s@.len()
            },
            Err(_) => spec_parse_element(s@, i as int) is None,
        },
    decreases s@.len() - i, 0int,
{
    let n = s.unicode_len();
    if i >= n || s.get_char(i) != '<' {
        return Err(ParseError::Malformed);
    }
    let ne = scan_name(s, i + 1);
    if ne == i + 1 {
        return Err(ParseError::Malformed);
    }
    let tag = String::from_str(s.substring_char(i + 1, ne));
    match parse_attrs(s, ne) {
        Err(e) => Err(e),
        Ok((attrs, gt)) => {
            match parse_nodes(s, gt + 1) {
                Err(e) => Err(e),
                Ok((children, m)) => {
                    if m >= n || n - m < 2 {
                        return Err(ParseError::Malformed);
                    }
                    if s.get_char(m) != '<' || s.get_char(m + 1) != '/' {
                        return Err(ParseError::Malformed);
                    }
                    let ce = scan_name(s, m + 2);
                    if ce - (m + 2) != ne - (i + 1) || !str_eq(
                        s.substring_char(m + 2, ce),
                        tag.as_str(),
                    ) || ce >= n || s.get_char(ce) != '>' {
                        return Err(ParseError::Malformed);
                    }
                    let el = HTMLElement::Element { tag, attributes: attrs, children };
                    Ok((el, ce + 1))
                },
            }
        },
    }
}

/// Parses a whole document: returns the element tree exactly when the
/// reference grammar accepts the entire input.
pub fn parse(html: &str) -> (r: Result<Vec<HTMLElement>, ParseError>)
    ensures
        match r {
            Ok(v) => spec_parse(html@) == Some(nodes_view(v@)),
            Err(_) => spec_parse(html@) is None,
        },
{
    match parse_nodes(html, 0) {
        Err(e) => Err(e),
        Ok((nodes, k)) => {
            if k == html.unicode_len() {
                Ok(nodes)
            } else {
                Err(ParseError::Malformed)
            }
        },
    }
}

} // verus!
