//! The dialect's grammar as a mathematical function from XML trees to the
//! domain model.
//!
//! Every builder in [`crate::invocations`] is proved to return exactly what
//! the corresponding `parse_*` function here says: the same model value on
//! success, the same error otherwise.  The parse functions are stated over
//! [`NodeModel`] trees, with sibling walks expressed over the
//! [`significant`] subsequence of a child list, so that whitespace-only text
//! and comments between siblings are transparent by construction.

use vstd::prelude::*;

use crate::xml::NodeModel;
use crate::xml::attr_value;
use crate::xml::elem_with_tag;
use crate::xml::element_children;
use crate::xml::lower_eq;
use crate::xml::node_attrs;
use crate::xml::node_children;
use crate::xml::node_tag;
use crate::xml::significant;

verus! {

/// Which builder detected a failure: the location tag every error carries
/// for diagnostics.
#[derive(Clone, Copy, Debug, PartialEq, Eq, Structural)]
pub enum Loc {
    ApiElement,
    StructElem,
    Interface,
    Method,
    Param,
    ErrorElement,
    LeafNode,
}

/// Model of a build failure: a required attribute was absent, or a node's
/// tag name matched no case the dispatching builder handles.
pub enum GenErrorModel {
    Attribute(Seq<char>, Loc),
    UnsupportedNodeType(Seq<char>, Loc),
}

/// Model of one inline-markup leaf.
pub enum LeafNodeModel {
    PCData(Seq<char>),
    TextTT(Seq<char>),
    AutoRef { label: Seq<char> },
    ShortRef { sec: Seq<char> },
    Obj { name: Seq<char> },
}

/// Model of one documentation leaf: a cross-reference wrapper or a single
/// inline leaf.
pub enum DocLeafModel {
    DocRef(Seq<LeafNodeModel>),
    Leaf(LeafNodeModel),
}

/// Model of one entry of a method's return section.
pub enum ReturnModel {
    ErrorEnumDesc,
    Leaves(DocLeafModel),
}

pub struct CapParamModel {
    pub append_description: Seq<char>,
}

pub struct ErrorElementModel {
    pub name: Seq<char>,
    pub description: Seq<DocLeafModel>,
}

pub struct ParamModel {
    pub typ: Seq<char>,
    pub name: Seq<char>,
    pub dir: Seq<char>,
    pub description: Seq<DocLeafModel>,
    pub errors: Seq<ErrorElementModel>,
}

pub struct MethodModel {
    pub name: Seq<char>,
    pub id: Seq<char>,
    pub condition: Option<Seq<char>>,
    pub manual_name: Option<Seq<char>>,
    pub manual_label: Option<Seq<char>>,
    pub brief: Seq<DocLeafModel>,
    pub description: Seq<DocLeafModel>,
    pub return_value: Seq<ReturnModel>,
    pub cap_param: Option<CapParamModel>,
    pub params: Seq<ParamModel>,
    pub errors: Seq<ErrorElementModel>,
}

pub enum ApiElementModel {
    StructElem { name: Seq<char>, members: Seq<Seq<char>> },
    Interface {
        name: Seq<char>,
        manual_name: Option<Seq<char>>,
        cap_desc: Option<Seq<char>>,
        methods: Seq<MethodModel>,
    },
}

pub struct ApiModel {
    pub name: Option<Seq<char>>,
    pub label_prefix: Option<Seq<char>>,
    pub children: Seq<ApiElementModel>,
}

/// The raw tag name an unsupported-node error reports: the element's tag,
/// or empty for any other node kind.
pub open spec fn raw_name(n: NodeModel) -> Seq<char> {
    node_tag(n)
}

/// Required attribute access: the value, or the failure naming exactly the
/// absent attribute.
pub open spec fn req_attr_spec(n: NodeModel, name: Seq<char>, loc: Loc) -> Result<
    Seq<char>,
    GenErrorModel,
> {
    match attr_value(node_attrs(n), name) {
        Some(v) => Ok(v),
        None => Err(GenErrorModel::Attribute(name, loc)),
    }
}

/// One inline-markup leaf: text becomes `PCData`; an element is dispatched
/// on its case-folded tag name; anything else is unsupported.
pub open spec fn parse_leaf(n: NodeModel) -> Result<LeafNodeModel, GenErrorModel> {
    match n {
        NodeModel::Text { text } => Ok(LeafNodeModel::PCData(text)),
        NodeModel::Element { tag, .. } => {
            if lower_eq(tag, "texttt"@) {
                match req_attr_spec(n, "text"@, Loc::LeafNode) {
                    Ok(v) => Ok(LeafNodeModel::TextTT(v)),
                    Err(e) => Err(e),
                }
            } else if lower_eq(tag, "shortref"@) {
                match req_attr_spec(n, "sec"@, Loc::LeafNode) {
                    Ok(v) => Ok(LeafNodeModel::ShortRef { sec: v }),
                    Err(e) => Err(e),
                }
            } else if lower_eq(tag, "autoref"@) {
                match req_attr_spec(n, "label"@, Loc::LeafNode) {
                    Ok(v) => Ok(LeafNodeModel::ShortRef { sec: v }),
                    Err(e) => Err(e),
                }
            } else if lower_eq(tag, "obj"@) {
                match req_attr_spec(n, "name"@, Loc::LeafNode) {
                    Ok(v) => Ok(LeafNodeModel::Obj { name: v }),
                    Err(e) => Err(e),
                }
            } else {
                Err(GenErrorModel::UnsupportedNodeType(tag, Loc::LeafNode))
            }
        },
        NodeModel::Comment => Err(
            GenErrorModel::UnsupportedNodeType(raw_name(n), Loc::LeafNode),
        ),
    }
}

/// Every child of a cross-reference element, as inline leaves, from
/// position `i` on.
pub open spec fn parse_leaves_from(cs: Seq<NodeModel>, i: int) -> Result<
    Seq<LeafNodeModel>,
    GenErrorModel,
>
    decreases cs.len() - i,
{
    if i < 0 || i >= cs.len() {
        Ok(Seq::empty())
    } else {
        match parse_leaf(cs[i]) {
            Ok(l) => match parse_leaves_from(cs, i + 1) {
                Ok(rest) => Ok(seq![l] + rest),
                Err(e) => Err(e),
            },
            Err(e) => Err(e),
        }
    }
}

/// One documentation leaf: a `docref` element wraps its children as a
/// cross-reference; any other node is a single inline leaf.
pub open spec fn parse_doc_leaf(n: NodeModel) -> Result<DocLeafModel, GenErrorModel> {
    if elem_with_tag(n, "docref"@) {
        match parse_leaves_from(node_children(n), 0) {
            Ok(ls) => Ok(DocLeafModel::DocRef(ls)),
            Err(e) => Err(e),
        }
    } else {
        match parse_leaf(n) {
            Ok(l) => Ok(DocLeafModel::Leaf(l)),
            Err(e) => Err(e),
        }
    }
}

/// Every child of a documentation section, as documentation leaves, from
/// position `i` on.
pub open spec fn parse_doc_leaves_from(cs: Seq<NodeModel>, i: int) -> Result<
    Seq<DocLeafModel>,
    GenErrorModel,
>
    decreases cs.len() - i,
{
    if i < 0 || i >= cs.len() {
        Ok(Seq::empty())
    } else {
        match parse_doc_leaf(cs[i]) {
            Ok(l) => match parse_doc_leaves_from(cs, i + 1) {
                Ok(rest) => Ok(seq![l] + rest),
                Err(e) => Err(e),
            },
            Err(e) => Err(e),
        }
    }
}

/// One entry of a return section: the `errorenumdesc` marker, or a
/// documentation leaf.
pub open spec fn parse_return(n: NodeModel) -> Result<ReturnModel, GenErrorModel> {
    if elem_with_tag(n, "errorenumdesc"@) {
        Ok(ReturnModel::ErrorEnumDesc)
    } else {
        match parse_doc_leaf(n) {
            Ok(l) => Ok(ReturnModel::Leaves(l)),
            Err(e) => Err(e),
        }
    }
}

/// Every child of a `return` element, from position `i` on.
pub open spec fn parse_returns_from(cs: Seq<NodeModel>, i: int) -> Result<
    Seq<ReturnModel>,
    GenErrorModel,
>
    decreases cs.len() - i,
{
    if i < 0 || i >= cs.len() {
        Ok(Seq::empty())
    } else {
        match parse_return(cs[i]) {
            Ok(r) => match parse_returns_from(cs, i + 1) {
                Ok(rest) => Ok(seq![r] + rest),
                Err(e) => Err(e),
            },
            Err(e) => Err(e),
        }
    }
}

/// The sibling-sequence walker over an already-denoised child list: if the
/// significant sibling at `p` is an element named `name`, all its children
/// become documentation leaves and the walk advances past it; otherwise the
/// section is absent, nothing is consumed, and the position is returned
/// unchanged.
pub open spec fn take_leaves_at(sig: Seq<NodeModel>, p: int, name: Seq<char>) -> Result<
    (Seq<DocLeafModel>, int),
    GenErrorModel,
> {
    if 0 <= p < sig.len() && elem_with_tag(sig[p], name) {
        match parse_doc_leaves_from(node_children(sig[p]), 0) {
            Ok(ls) => Ok((ls, p + 1)),
            Err(e) => Err(e),
        }
    } else {
        Ok((Seq::empty(), p))
    }
}

/// The walker's variant for the `return` section.
pub open spec fn take_returns_at(sig: Seq<NodeModel>, p: int) -> Result<
    (Seq<ReturnModel>, int),
    GenErrorModel,
> {
    if 0 <= p < sig.len() && elem_with_tag(sig[p], "return"@) {
        match parse_returns_from(node_children(sig[p]), 0) {
            Ok(rs) => Ok((rs, p + 1)),
            Err(e) => Err(e),
        }
    } else {
        Ok((Seq::empty(), p))
    }
}

/// One error element: a required `name`, and a description drawn from the
/// `description` attribute, an equally named child element, or both, in
/// that order.  Siblings after the description position are ignored.
pub open spec fn parse_error_element(n: NodeModel) -> Result<ErrorElementModel, GenErrorModel> {
    match req_attr_spec(n, "name"@, Loc::ErrorElement) {
        Err(e) => Err(e),
        Ok(name) => {
            let head = match attr_value(node_attrs(n), "description"@) {
                Some(t) => seq![DocLeafModel::Leaf(LeafNodeModel::PCData(t))],
                None => Seq::empty(),
            };
            match take_leaves_at(significant(node_children(n)), 0, "description"@) {
                Ok((ls, _p)) => Ok(ErrorElementModel { name, description: head + ls }),
                Err(e) => Err(e),
            }
        },
    }
}

pub open spec fn is_param_elem(n: NodeModel) -> bool {
    elem_with_tag(n, "param"@)
}

/// Every remaining significant sibling of a parameter, as error elements.
pub open spec fn parse_errors_at(sig: Seq<NodeModel>, p: int) -> Result<
    Seq<ErrorElementModel>,
    GenErrorModel,
>
    decreases sig.len() - p,
{
    if p < 0 || p >= sig.len() {
        Ok(Seq::empty())
    } else {
        match parse_error_element(sig[p]) {
            Ok(e) => match parse_errors_at(sig, p + 1) {
                Ok(rest) => Ok(seq![e] + rest),
                Err(err) => Err(err),
            },
            Err(err) => Err(err),
        }
    }
}

/// One parameter: requires `type`, `name` and `dir`; a description drawn
/// additively from attribute and child element; then every further
/// significant child interpreted as an error element.
pub open spec fn parse_param(n: NodeModel) -> Result<ParamModel, GenErrorModel> {
    if !is_param_elem(n) {
        Err(GenErrorModel::UnsupportedNodeType(raw_name(n), Loc::Param))
    } else {
        match req_attr_spec(n, "type"@, Loc::Param) {
            Err(e) => Err(e),
            Ok(typ) => match req_attr_spec(n, "name"@, Loc::Param) {
                Err(e) => Err(e),
                Ok(name) => match req_attr_spec(n, "dir"@, Loc::Param) {
                    Err(e) => Err(e),
                    Ok(dir) => {
                        let head = match attr_value(node_attrs(n), "description"@) {
                            Some(t) => seq![DocLeafModel::Leaf(LeafNodeModel::PCData(t))],
                            None => Seq::empty(),
                        };
                        let sig = significant(node_children(n));
                        match take_leaves_at(sig, 0, "description"@) {
                            Err(e) => Err(e),
                            Ok((ls, p)) => match parse_errors_at(sig, p) {
                                Err(e) => Err(e),
                                Ok(errors) => Ok(
                                    ParamModel {
                                        typ,
                                        name,
                                        dir,
                                        description: head + ls,
                                        errors,
                                    },
                                ),
                            },
                        }
                    },
                },
            },
        }
    }
}

/// The run of parameters: significant siblings are consumed while their tag
/// name is `param`; the first other sibling stops the run without error.
pub open spec fn parse_params_at(sig: Seq<NodeModel>, p: int) -> Result<
    Seq<ParamModel>,
    GenErrorModel,
>
    decreases sig.len() - p,
{
    if p < 0 || p >= sig.len() || !is_param_elem(sig[p]) {
        Ok(Seq::empty())
    } else {
        match parse_param(sig[p]) {
            Ok(pm) => match parse_params_at(sig, p + 1) {
                Ok(rest) => Ok(seq![pm] + rest),
                Err(e) => Err(e),
            },
            Err(e) => Err(e),
        }
    }
}

/// One method: required `name` and `id`, three optional attributes, then
/// the fixed grammar of optional ordered sections over the significant
/// children: brief, description, return, a single `cap_param`, and the
/// parameter run.  The error sequence is never populated here.
pub open spec fn parse_method(n: NodeModel) -> Result<MethodModel, GenErrorModel> {
    match req_attr_spec(n, "name"@, Loc::Method) {
        Err(e) => Err(e),
        Ok(name) => match req_attr_spec(n, "id"@, Loc::Method) {
            Err(e) => Err(e),
            Ok(id) => {
                let condition = attr_value(node_attrs(n), "condition"@);
                let manual_name = attr_value(node_attrs(n), "manual_name"@);
                let manual_label = attr_value(node_attrs(n), "manual_label"@);
                let sig = significant(node_children(n));
                match take_leaves_at(sig, 0, "brief"@) {
                    Err(e) => Err(e),
                    Ok((brief, p1)) => match take_leaves_at(sig, p1, "description"@) {
                        Err(e) => Err(e),
                        Ok((description, p2)) => match take_returns_at(sig, p2) {
                            Err(e) => Err(e),
                            Ok((return_value, p3)) => {
                                let (cap_param, p4) = take_cap_param_at(sig, p3);
                                match parse_params_at(sig, p4) {
                                    Err(e) => Err(e),
                                    Ok(params) => Ok(
                                        MethodModel {
                                            name,
                                            id,
                                            condition,
                                            manual_name,
                                            manual_label,
                                            brief,
                                            description,
                                            return_value,
                                            cap_param,
                                            params,
                                            errors: Seq::empty(),
                                        },
                                    ),
                                }
                            },
                        },
                    },
                }
            },
        },
    }
}

/// The optional single `cap_param` element: consumed if present; it yields
/// a payload only when its `append_description` attribute is set.
pub open spec fn take_cap_param_at(sig: Seq<NodeModel>, p: int) -> (Option<CapParamModel>, int) {
    if 0 <= p < sig.len() && elem_with_tag(sig[p], "cap_param"@) {
        let cap = match attr_value(node_attrs(sig[p]), "append_description"@) {
            Some(t) => Some(CapParamModel { append_description: t }),
            None => None,
        };
        (cap, p + 1)
    } else {
        (None, p)
    }
}

/// Every significant child of an interface, as methods, from significant
/// position `p` on.
pub open spec fn parse_methods_at(sig: Seq<NodeModel>, p: int) -> Result<
    Seq<MethodModel>,
    GenErrorModel,
>
    decreases sig.len() - p,
{
    if p < 0 || p >= sig.len() {
        Ok(Seq::empty())
    } else {
        match parse_method(sig[p]) {
            Ok(m) => match parse_methods_at(sig, p + 1) {
                Ok(rest) => Ok(seq![m] + rest),
                Err(e) => Err(e),
            },
            Err(e) => Err(e),
        }
    }
}

/// The member names of a struct element: the required `name` attribute of
/// every element-typed child, in order, from position `p` of the
/// element-children subsequence on.
pub open spec fn parse_members_at(elems: Seq<NodeModel>, p: int) -> Result<
    Seq<Seq<char>>,
    GenErrorModel,
>
    decreases elems.len() - p,
{
    if p < 0 || p >= elems.len() {
        Ok(Seq::empty())
    } else {
        match req_attr_spec(elems[p], "name"@, Loc::StructElem) {
            Ok(m) => match parse_members_at(elems, p + 1) {
                Ok(rest) => Ok(seq![m] + rest),
                Err(e) => Err(e),
            },
            Err(e) => Err(e),
        }
    }
}

/// One root-level child: a `struct` or an `interface`, dispatched on the
/// case-folded tag name; any other name is unsupported and reported.
pub open spec fn parse_api_element(n: NodeModel) -> Result<ApiElementModel, GenErrorModel> {
    if lower_eq(node_tag(n), "struct"@) {
        match req_attr_spec(n, "name"@, Loc::StructElem) {
            Err(e) => Err(e),
            Ok(name) => match parse_members_at(element_children(node_children(n)), 0) {
                Ok(members) => Ok(ApiElementModel::StructElem { name, members }),
                Err(e) => Err(e),
            },
        }
    } else if lower_eq(node_tag(n), "interface"@) {
        match req_attr_spec(n, "name"@, Loc::Interface) {
            Err(e) => Err(e),
            Ok(name) => {
                let manual_name = attr_value(node_attrs(n), "manual_name"@);
                let cap_desc = attr_value(node_attrs(n), "capability_description"@);
                match parse_methods_at(significant(node_children(n)), 0) {
                    Ok(methods) => Ok(
                        ApiElementModel::Interface { name, manual_name, cap_desc, methods },
                    ),
                    Err(e) => Err(e),
                }
            },
        }
    } else {
        Err(GenErrorModel::UnsupportedNodeType(raw_name(n), Loc::ApiElement))
    }
}

/// Every significant root child, as interface-or-struct elements, from
/// significant position `p` on.
pub open spec fn parse_api_elements_at(sig: Seq<NodeModel>, p: int) -> Result<
    Seq<ApiElementModel>,
    GenErrorModel,
>
    decreases sig.len() - p,
{
    if p < 0 || p >= sig.len() {
        Ok(Seq::empty())
    } else {
        match parse_api_element(sig[p]) {
            Ok(e) => match parse_api_elements_at(sig, p + 1) {
                Ok(rest) => Ok(seq![e] + rest),
                Err(err) => Err(err),
            },
            Err(err) => Err(err),
        }
    }
}

/// The whole document: optional `name` and `label_prefix` on the root, then
/// every significant root child in document order.
pub open spec fn parse_api(root: NodeModel) -> Result<ApiModel, GenErrorModel> {
    match parse_api_elements_at(significant(node_children(root)), 0) {
        Ok(children) => Ok(
            ApiModel {
                name: attr_value(node_attrs(root), "name"@),
                label_prefix: attr_value(node_attrs(root), "label_prefix"@),
                children,
            },
        ),
        Err(e) => Err(e),
    }
}

/// Each entry of a successful element run is built from the significant
/// sibling at the matching offset, in order.
pub proof fn lemma_api_elements_order(sig: Seq<NodeModel>, p: int)
    requires
        0 <= p <= sig.len(),
    ensures
        parse_api_elements_at(sig, p) matches Ok(es) ==> es.len() == sig.len() - p && forall|
            i: int,
        |
            0 <= i < es.len() ==> parse_api_element(sig[p + i]) == Ok::<
                ApiElementModel,
                GenErrorModel,
            >(#[trigger] es[i]),
    decreases sig.len() - p,
{
    if p < sig.len() {
        lemma_api_elements_order(sig, p + 1);
    }
}

/// Order preservation at the root: a successfully built document has
/// exactly one child per significant root child, each built from that
/// child, in document order.
pub proof fn lemma_api_order(root: NodeModel, a: ApiModel)
    requires
        parse_api(root) == Ok::<ApiModel, GenErrorModel>(a),
    ensures
        a.children.len() == significant(node_children(root)).len(),
        forall|i: int|
            0 <= i < a.children.len() ==> parse_api_element(
                significant(node_children(root))[i],
            ) == Ok::<ApiElementModel, GenErrorModel>(#[trigger] a.children[i]),
{
    lemma_api_elements_order(significant(node_children(root)), 0);
}

proof fn lemma_methods_order_at(sig: Seq<NodeModel>, p: int)
    requires
        0 <= p <= sig.len(),
    ensures
        parse_methods_at(sig, p) matches Ok(ms) ==> ms.len() == sig.len() - p && forall|i: int|
            0 <= i < ms.len() ==> parse_method(sig[p + i]) == Ok::<MethodModel, GenErrorModel>(
                #[trigger] ms[i],
            ),
    decreases sig.len() - p,
{
    if p < sig.len() {
        lemma_methods_order_at(sig, p + 1);
    }
}

/// Order preservation within an interface: a successfully built interface
/// has exactly one method per significant child, each built from that
/// child, in document order.
pub proof fn lemma_interface_method_order(n: NodeModel, e: ApiElementModel)
    requires
        parse_api_element(n) == Ok::<ApiElementModel, GenErrorModel>(e),
        e is Interface,
    ensures
        e->Interface_methods.len() == significant(node_children(n)).len(),
        forall|i: int|
            0 <= i < e->Interface_methods.len() ==> parse_method(
                significant(node_children(n))[i],
            ) == Ok::<MethodModel, GenErrorModel>(#[trigger] e->Interface_methods[i]),
{
    lemma_methods_order_at(significant(node_children(n)), 0);
}

/// The run of parameter elements a method consumes: significant siblings
/// from `p` on, for as long as they are `param` elements.
pub open spec fn param_run(sig: Seq<NodeModel>, p: int) -> Seq<NodeModel>
    decreases sig.len() - p,
{
    if 0 <= p < sig.len() && is_param_elem(sig[p]) {
        seq![sig[p]] + param_run(sig, p + 1)
    } else {
        Seq::empty()
    }
}

/// Each entry of a successful parameter run is built from the matching
/// node of the run, in order.
pub proof fn lemma_params_order(sig: Seq<NodeModel>, p: int)
    requires
        0 <= p,
    ensures
        parse_params_at(sig, p) matches Ok(ps) ==> ps.len() == param_run(sig, p).len() && forall|
            i: int,
        |
            0 <= i < ps.len() ==> parse_param(param_run(sig, p)[i]) == Ok::<
                ParamModel,
                GenErrorModel,
            >(#[trigger] ps[i]),
    decreases sig.len() - p,
{
    if 0 <= p < sig.len() && is_param_elem(sig[p]) {
        lemma_params_order(sig, p + 1);
    }
}

/// Order preservation of a method's parameters: a successfully built
/// method holds exactly the run of `param` elements that follows its
/// optional sections, one parameter per element, in document order.
pub proof fn lemma_method_param_order(n: NodeModel, m: MethodModel)
    requires
        parse_method(n) == Ok::<MethodModel, GenErrorModel>(m),
    ensures
        ({
            let sig = significant(node_children(n));
            match take_leaves_at(sig, 0, "brief"@) {
                Ok((b, p1)) => match take_leaves_at(sig, p1, "description"@) {
                    Ok((d, p2)) => match take_returns_at(sig, p2) {
                        Ok((rv, p3)) => {
                            let (c, p4) = take_cap_param_at(sig, p3);
                            &&& m.params.len() == param_run(sig, p4).len()
                            &&& forall|i: int|
                                0 <= i < m.params.len() ==> parse_param(param_run(sig, p4)[i])
                                    == Ok::<ParamModel, GenErrorModel>(#[trigger] m.params[i])
                        },
                        Err(_) => false,
                    },
                    Err(_) => false,
                },
                Err(_) => false,
            }
        }),
{
    let sig = significant(node_children(n));
    match take_leaves_at(sig, 0, "brief"@) {
        Ok((b, p1)) => match take_leaves_at(sig, p1, "description"@) {
            Ok((d, p2)) => match take_returns_at(sig, p2) {
                Ok((rv, p3)) => {
                    let (c, p4) = take_cap_param_at(sig, p3);
                    lemma_params_order(sig, p4);
                },
                Err(_) => {},
            },
            Err(_) => {},
        },
        Err(_) => {},
    }
}

/// Whitespace transparency at the root: two documents whose roots carry
/// the same attributes and whose child lists agree once whitespace-only
/// text and comments are dropped parse to the same model.
pub proof fn lemma_whitespace_transparency(r1: NodeModel, r2: NodeModel)
    requires
        node_attrs(r1) == node_attrs(r2),
        significant(node_children(r1)) == significant(node_children(r2)),
    ensures
        parse_api(r1) == parse_api(r2),
{
}

/// Whitespace transparency of a method: noise between a method's child
/// sections never changes the built method.
pub proof fn lemma_whitespace_transparency_method(n1: NodeModel, n2: NodeModel)
    requires
        node_attrs(n1) == node_attrs(n2),
        significant(node_children(n1)) == significant(node_children(n2)),
    ensures
        parse_method(n1) == parse_method(n2),
{
}

/// Whitespace transparency of a root child: noise between the children of
/// a struct or interface never changes the built element.
pub proof fn lemma_whitespace_transparency_element(n1: NodeModel, n2: NodeModel)
    requires
        node_tag(n1) == node_tag(n2),
        node_attrs(n1) == node_attrs(n2),
        significant(node_children(n1)) == significant(node_children(n2)),
        element_children(node_children(n1)) == element_children(node_children(n2)),
    ensures
        parse_api_element(n1) == parse_api_element(n2),
{
}

/// Whitespace transparency, insertion form: adding one whitespace-only
/// text node or comment at any position among the root's children leaves
/// the built model unchanged.
pub proof fn lemma_noise_insertion_at_root(
    tag: Seq<char>,
    attrs: Seq<(Seq<char>, Seq<char>)>,
    cs: Seq<NodeModel>,
    k: int,
    x: NodeModel,
)
    requires
        0 <= k <= cs.len(),
        crate::xml::is_noise(x),
    ensures
        parse_api(NodeModel::Element { tag, attrs, children: cs.insert(k, x) }) == parse_api(
            NodeModel::Element { tag, attrs, children: cs },
        ),
{
    crate::xml::lemma_filter_insert_skipped(cs, crate::xml::sig_pred(), k, x);
}

/// Whitespace transparency, insertion form, for a method's children.
pub proof fn lemma_noise_insertion_in_method(
    tag: Seq<char>,
    attrs: Seq<(Seq<char>, Seq<char>)>,
    cs: Seq<NodeModel>,
    k: int,
    x: NodeModel,
)
    requires
        0 <= k <= cs.len(),
        crate::xml::is_noise(x),
    ensures
        parse_method(NodeModel::Element { tag, attrs, children: cs.insert(k, x) }) == parse_method(
            NodeModel::Element { tag, attrs, children: cs },
        ),
{
    crate::xml::lemma_filter_insert_skipped(cs, crate::xml::sig_pred(), k, x);
}

/// Whitespace transparency, insertion form, for a struct's or an
/// interface's children.
pub proof fn lemma_noise_insertion_in_element(
    tag: Seq<char>,
    attrs: Seq<(Seq<char>, Seq<char>)>,
    cs: Seq<NodeModel>,
    k: int,
    x: NodeModel,
)
    requires
        0 <= k <= cs.len(),
        crate::xml::is_noise(x),
    ensures
        parse_api_element(NodeModel::Element { tag, attrs, children: cs.insert(k, x) })
            == parse_api_element(NodeModel::Element { tag, attrs, children: cs }),
{
    crate::xml::lemma_filter_insert_skipped(cs, crate::xml::sig_pred(), k, x);
    crate::xml::lemma_filter_insert_skipped(cs, crate::xml::elem_pred(), k, x);
}

/// Attribute/child duality: a parameter carrying both a `description`
/// attribute and a leading `description` child element yields the
/// attribute-derived leaf first, then the child's leaves, additively.
pub proof fn lemma_param_description_duality(
    n: NodeModel,
    pm: ParamModel,
    t: Seq<char>,
    ls: Seq<DocLeafModel>,
)
    requires
        parse_param(n) == Ok::<ParamModel, GenErrorModel>(pm),
        attr_value(node_attrs(n), "description"@) == Some(t),
        take_leaves_at(significant(node_children(n)), 0, "description"@) == Ok::<
            (Seq<DocLeafModel>, int),
            GenErrorModel,
        >((ls, 1)),
    ensures
        pm.description == seq![DocLeafModel::Leaf(LeafNodeModel::PCData(t))] + ls,
{
}

/// Attribute/child duality for an error element, in the same order.
pub proof fn lemma_error_description_duality(
    n: NodeModel,
    em: ErrorElementModel,
    t: Seq<char>,
    ls: Seq<DocLeafModel>,
)
    requires
        parse_error_element(n) == Ok::<ErrorElementModel, GenErrorModel>(em),
        attr_value(node_attrs(n), "description"@) == Some(t),
        take_leaves_at(significant(node_children(n)), 0, "description"@) == Ok::<
            (Seq<DocLeafModel>, int),
            GenErrorModel,
        >((ls, 1)),
    ensures
        em.description == seq![DocLeafModel::Leaf(LeafNodeModel::PCData(t))] + ls,
{
}

/// Required-attribute failure of a method: a missing `name` fails naming
/// exactly `name`; with `name` present, a missing `id` fails naming
/// exactly `id`.
pub proof fn lemma_method_required_attributes(n: NodeModel)
    ensures
        attr_value(node_attrs(n), "name"@) is None ==> parse_method(n) == Err::<
            MethodModel,
            GenErrorModel,
        >(GenErrorModel::Attribute("name"@, Loc::Method)),
        attr_value(node_attrs(n), "name"@) is Some && attr_value(node_attrs(n), "id"@) is None
            ==> parse_method(n) == Err::<MethodModel, GenErrorModel>(
            GenErrorModel::Attribute("id"@, Loc::Method),
        ),
{
}

/// Required-attribute failure of a parameter: `type`, `name` and `dir`
/// are checked in that order, and the first one absent is named exactly.
pub proof fn lemma_param_required_attributes(n: NodeModel)
    requires
        is_param_elem(n),
    ensures
        attr_value(node_attrs(n), "type"@) is None ==> parse_param(n) == Err::<
            ParamModel,
            GenErrorModel,
        >(GenErrorModel::Attribute("type"@, Loc::Param)),
        attr_value(node_attrs(n), "type"@) is Some && attr_value(node_attrs(n), "name"@) is None
            ==> parse_param(n) == Err::<ParamModel, GenErrorModel>(
            GenErrorModel::Attribute("name"@, Loc::Param),
        ),
        attr_value(node_attrs(n), "type"@) is Some && attr_value(node_attrs(n), "name"@) is Some
            && attr_value(node_attrs(n), "dir"@) is None ==> parse_param(n) == Err::<
            ParamModel,
            GenErrorModel,
        >(GenErrorModel::Attribute("dir"@, Loc::Param)),
{
}

/// Required-attribute failure of an error element: a missing `name` fails
/// naming exactly `name`.
pub proof fn lemma_error_element_required_attributes(n: NodeModel)
    ensures
        attr_value(node_attrs(n), "name"@) is None ==> parse_error_element(n) == Err::<
            ErrorElementModel,
            GenErrorModel,
        >(GenErrorModel::Attribute("name"@, Loc::ErrorElement)),
{
}

/// Required-attribute failure of the inline markup leaves: each element
/// kind names exactly its own required attribute.
pub proof fn lemma_leaf_required_attributes(n: NodeModel)
    ensures
        elem_with_tag(n, "texttt"@) && attr_value(node_attrs(n), "text"@) is None ==> parse_leaf(n)
            == Err::<LeafNodeModel, GenErrorModel>(
            GenErrorModel::Attribute("text"@, Loc::LeafNode),
        ),
        elem_with_tag(n, "shortref"@) && attr_value(node_attrs(n), "sec"@) is None ==> parse_leaf(
            n,
        ) == Err::<LeafNodeModel, GenErrorModel>(
            GenErrorModel::Attribute("sec"@, Loc::LeafNode),
        ),
        elem_with_tag(n, "obj"@) && attr_value(node_attrs(n), "name"@) is None ==> parse_leaf(n)
            == Err::<LeafNodeModel, GenErrorModel>(
            GenErrorModel::Attribute("name"@, Loc::LeafNode),
        ),
{
    reveal_strlit("texttt");
    reveal_strlit("shortref");
    reveal_strlit("autoref");
    reveal_strlit("obj");
}

/// Required-attribute failure of a root child: a `struct` or an
/// `interface` without its `name` attribute fails naming exactly `name`.
pub proof fn lemma_api_element_required_attributes(n: NodeModel)
    ensures
        lower_eq(node_tag(n), "struct"@) && attr_value(node_attrs(n), "name"@) is None
            ==> parse_api_element(n) == Err::<ApiElementModel, GenErrorModel>(
            GenErrorModel::Attribute("name"@, Loc::StructElem),
        ),
        !lower_eq(node_tag(n), "struct"@) && lower_eq(node_tag(n), "interface"@) && attr_value(
            node_attrs(n),
            "name"@,
        ) is None ==> parse_api_element(n) == Err::<ApiElementModel, GenErrorModel>(
            GenErrorModel::Attribute("name"@, Loc::Interface),
        ),
{
}

/// Optional-section passthrough: where the next significant sibling is
/// not the named section, the walker consumes nothing, yields no leaves,
/// and hands the very same position to the next section.
pub proof fn lemma_section_passthrough(sig: Seq<NodeModel>, p: int, name: Seq<char>)
    requires
        !(0 <= p < sig.len() && elem_with_tag(sig[p], name)),
    ensures
        take_leaves_at(sig, p, name) == Ok::<(Seq<DocLeafModel>, int), GenErrorModel>(
            (Seq::empty(), p),
        ),
{
}

/// Determinism: the parse is a function of the tree alone, so two builds
/// of the same document are structurally equal.
pub proof fn lemma_parse_deterministic(
    root: NodeModel,
    r1: Result<ApiModel, GenErrorModel>,
    r2: Result<ApiModel, GenErrorModel>,
)
    requires
        r1 == parse_api(root),
        r2 == parse_api(root),
    ensures
        r1 == r2,
{
}

} // verus!

