//! Shared traversal helpers: attribute access, the next-significant-sibling
//! primitive, and the sibling-sequence walkers for documentation and return
//! sections.

use vstd::prelude::*;

use crate::grammar::GenErrorModel;
use crate::grammar::Loc;
use crate::grammar::parse_doc_leaves_from;
use crate::grammar::parse_returns_from;
use crate::grammar::req_attr_spec;
use crate::invocations::DocLeaf;
use crate::invocations::InvocationGenError;
use crate::invocations::Return;
use crate::invocations::res_model;
use crate::xml::XmlNode;
use crate::xml::elem_with_tag;
use crate::xml::is_significant;
use crate::xml::node_children;
use crate::xml::nodes_model;
use crate::xml::sig_pred;
use crate::xml::significant;

verus! {

broadcast use crate::xml::lemma_nodes_model;

impl XmlNode {
    /// Required attribute access: fails, naming exactly the absent
    /// attribute and the calling builder, when the attribute is missing.
    pub fn req_attr(&self, name: &str, loc: Loc) -> (r: Result<String, InvocationGenError>)
        ensures
            res_model(r) == req_attr_spec(self@, name@, loc),
    {
        match self.opt_attr(name) {
            Some(v) => Ok(v),
            None => Err(InvocationGenError::Attribute(name.to_owned(), loc)),
        }
    }
}

/// The node classifier: starting at `start`, passes over whitespace-only
/// text nodes and comments and returns the position of the next
/// structurally significant sibling, or the list's length if none is left.
#[verifier::loop_isolation(false)]
pub fn skip_irrelevant(children: &Vec<XmlNode>, start: usize) -> (j: usize)
    requires
        start <= children@.len(),
    ensures
        start <= j <= children@.len(),
        significant(nodes_model(children@).take(j as int)) == significant(
            nodes_model(children@).take(start as int),
        ),
        j < children@.len() ==> is_significant(nodes_model(children@)[j as int]),
{
    let ghost cs = nodes_model(children@);
    proof {
        crate::xml::lemma_nodes_model(children@);
    }
    let n = children.len();
    let mut i: usize = start;
    while i < n
        invariant
            cs == nodes_model(children@),
            n == children@.len(),
            start <= i <= n,
            significant(cs.take(i as int)) == significant(cs.take(start as int)),
        decreases n - i,
    {
        if children[i].is_significant_node() {
            return i;
        }
        proof {
            crate::xml::lemma_filter_take_step(cs, sig_pred(), i as int);
        }
        i += 1;
    }
    i
}

/// The sibling-sequence walker: if the significant node at `i` is an
/// element named `name`, every one of its children becomes a documentation
/// leaf appended to `v` in order, and the position just past it is
/// returned; otherwise nothing is consumed and `i` itself comes back.
#[verifier::loop_isolation(false)]
pub fn take_leaves_from_element(
    children: &Vec<XmlNode>,
    i: usize,
    name: &str,
    v: &mut Vec<DocLeaf>,
) -> (r: Result<usize, InvocationGenError>)
    requires
        i < children@.len(),
    ensures
        ({
            let node = nodes_model(children@)[i as int];
            if elem_with_tag(node, name@) {
                match parse_doc_leaves_from(node_children(node), 0) {
                    Ok(ls) => r matches Ok(j) && j == i + 1 && final(v).deep_view() == old(
                        v,
                    ).deep_view() + ls,
                    Err(e) => r matches Err(err) && err.deep_view() == e,
                }
            } else {
                r matches Ok(j) && j == i && final(v).deep_view() == old(v).deep_view()
            }
        }),
{
    let ghost cs = nodes_model(children@);
    proof {
        crate::xml::lemma_nodes_model(children@);
    }
    // Binding the length teaches the verifier that positions past `i` still
    // fit in a usize.
    let _n = children.len();
    let node = &children[i];
    match node {
        XmlNode::Element { tag, children: inner, .. } => {
            if crate::xml::str_lower_eq(tag.as_str(), name) {
                let ghost ics = nodes_model(inner@);
                proof {
                    crate::xml::lemma_nodes_model(inner@);
                }
                let ghost old_dv = v.deep_view();
                let m = inner.len();
                let mut k: usize = 0;
                while k < m
                    invariant
                        ics == nodes_model(inner@),
                        m == inner@.len(),
                        k <= m,
                        v.deep_view().len() >= old_dv.len(),
                        v.deep_view().take(old_dv.len() as int) == old_dv,
                        ({
                            let done = v.deep_view().skip(old_dv.len() as int);
                            match parse_doc_leaves_from(ics, k as int) {
                                Ok(rest) => parse_doc_leaves_from(ics, 0) == Ok::<
                                    _,
                                    GenErrorModel,
                                >(done + rest),
                                Err(e) => parse_doc_leaves_from(ics, 0) == Err::<
                                    Seq<crate::grammar::DocLeafModel>,
                                    _,
                                >(e),
                            }
                        }),
                    decreases m - k,
                {
                    let ghost pre_dv = v.deep_view();
                    match DocLeaf::try_from_node(&inner[k]) {
                        Ok(l) => {
                            v.push(l);
                            proof {
                                assert(v.deep_view() =~= pre_dv.push(l.deep_view()));
                                assert(v.deep_view().take(old_dv.len() as int) =~= old_dv);
                                assert(v.deep_view().skip(old_dv.len() as int) =~= pre_dv.skip(
                                    old_dv.len() as int,
                                ).push(l.deep_view()));
                                assert(pre_dv.skip(old_dv.len() as int).push(l.deep_view()) + (
                                match parse_doc_leaves_from(ics, k as int + 1) {
                                    Ok(rest) => rest,
                                    Err(_) => Seq::empty(),
                                }) =~= pre_dv.skip(old_dv.len() as int) + (seq![l.deep_view()] + (
                                match parse_doc_leaves_from(ics, k as int + 1) {
                                    Ok(rest) => rest,
                                    Err(_) => Seq::empty(),
                                })));
                            }
                        },
                        Err(e) => {
                            return Err(e);
                        },
                    }
                    k += 1;
                }
                proof {
                    assert(v.deep_view().skip(old_dv.len() as int) + Seq::<
                        crate::grammar::DocLeafModel,
                    >::empty() =~= v.deep_view().skip(old_dv.len() as int));
                    assert(v.deep_view() =~= old_dv + v.deep_view().skip(old_dv.len() as int));
                }
                Ok(i + 1)
            } else {
                Ok(i)
            }
        },
        _ => Ok(i),
    }
}

/// The walker's variant for the `return` section: children of a `return`
/// element become `Return` entries instead of documentation leaves.
#[verifier::loop_isolation(false)]
pub fn take_return_value_from_element(
    children: &Vec<XmlNode>,
    i: usize,
    v: &mut Vec<Return>,
) -> (r: Result<usize, InvocationGenError>)
    requires
        i < children@.len(),
    ensures
        ({
            let node = nodes_model(children@)[i as int];
            if elem_with_tag(node, "return"@) {
                match parse_returns_from(node_children(node), 0) {
                    Ok(ls) => r matches Ok(j) && j == i + 1 && final(v).deep_view() == old(
                        v,
                    ).deep_view() + ls,
                    Err(e) => r matches Err(err) && err.deep_view() == e,
                }
            } else {
                r matches Ok(j) && j == i && final(v).deep_view() == old(v).deep_view()
            }
        }),
{
    let ghost cs = nodes_model(children@);
    proof {
        crate::xml::lemma_nodes_model(children@);
    }
    // Binding the length teaches the verifier that positions past `i` still
    // fit in a usize.
    let _n = children.len();
    let node = &children[i];
    match node {
        XmlNode::Element { tag, children: inner, .. } => {
            if crate::xml::str_lower_eq(tag.as_str(), "return") {
                let ghost ics = nodes_model(inner@);
                proof {
                    crate::xml::lemma_nodes_model(inner@);
                }
                let ghost old_dv = v.deep_view();
                let m = inner.len();
                let mut k: usize = 0;
                while k < m
                    invariant
                        ics == nodes_model(inner@),
                        m == inner@.len(),
                        k <= m,
                        v.deep_view().len() >= old_dv.len(),
                        v.deep_view().take(old_dv.len() as int) == old_dv,
                        ({
                            let done = v.deep_view().skip(old_dv.len() as int);
                            match parse_returns_from(ics, k as int) {
                                Ok(rest) => parse_returns_from(ics, 0) == Ok::<_, GenErrorModel>(
                                    done + rest,
                                ),
                                Err(e) => parse_returns_from(ics, 0) == Err::<
                                    Seq<crate::grammar::ReturnModel>,
                                    _,
                                >(e),
                            }
                        }),
                    decreases m - k,
                {
                    let ghost pre_dv = v.deep_view();
                    match Return::try_from_node(&inner[k]) {
                        Ok(l) => {
                            v.push(l);
                            proof {
                                assert(v.deep_view() =~= pre_dv.push(l.deep_view()));
                                assert(v.deep_view().take(old_dv.len() as int) =~= old_dv);
                                assert(v.deep_view().skip(old_dv.len() as int) =~= pre_dv.skip(
                                    old_dv.len() as int,
                                ).push(l.deep_view()));
                                assert(pre_dv.skip(old_dv.len() as int).push(l.deep_view()) + (
                                match parse_returns_from(ics, k as int + 1) {
                                    Ok(rest) => rest,
                                    Err(_) => Seq::empty(),
                                }) =~= pre_dv.skip(old_dv.len() as int) + (seq![l.deep_view()] + (
                                match parse_returns_from(ics, k as int + 1) {
                                    Ok(rest) => rest,
                                    Err(_) => Seq::empty(),
                                })));
                            }
                        },
                        Err(e) => {
                            return Err(e);
                        },
                    }
                    k += 1;
                }
                proof {
                    assert(v.deep_view().skip(old_dv.len() as int) + Seq::<
                        crate::grammar::ReturnModel,
                    >::empty() =~= v.deep_view().skip(old_dv.len() as int));
                    assert(v.deep_view() =~= old_dv + v.deep_view().skip(old_dv.len() as int));
                }
                Ok(i + 1)
            } else {
                Ok(i)
            }
        },
        _ => Ok(i),
    }
}

} // verus!
