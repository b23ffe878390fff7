//! The typed domain model of an interface-description document, and the
//! verified builders that construct it from an XML tree.
//!
//! Each builder consumes a subtree whose root the caller has already
//! classified, and is proved to return exactly what the corresponding spec
//! function of [`crate::grammar`] says of the subtree's model: the same
//! value on success, the same error otherwise.

use vstd::prelude::*;

use crate::grammar::ApiElementModel;
use crate::grammar::ApiModel;
use crate::grammar::CapParamModel;
use crate::grammar::DocLeafModel;
use crate::grammar::ErrorElementModel;
use crate::grammar::GenErrorModel;
use crate::grammar::LeafNodeModel;
use crate::grammar::Loc;
use crate::grammar::MethodModel;
use crate::grammar::ParamModel;
use crate::grammar::ReturnModel;
use crate::grammar::parse_leaf;
use crate::xml::XmlNode;

verus! {

broadcast use crate::xml::lemma_nodes_model;

/// A model-level image of a `Result`: both payloads replaced by their
/// models.
pub open spec fn res_model<T: DeepView, E: DeepView>(r: Result<T, E>) -> Result<T::V, E::V> {
    match r {
        Ok(t) => Ok(t.deep_view()),
        Err(e) => Err(e.deep_view()),
    }
}

/// A build failure: a required attribute was absent, or a node's tag name
/// matched no case the dispatching builder handles.  Each failure carries
/// the location tag of the builder that detected it.
#[derive(Debug, PartialEq)]
pub enum InvocationGenError {
    Attribute(String, Loc),
    UnsupportedNodeType(String, Loc),
}

impl DeepView for InvocationGenError {
    type V = GenErrorModel;

    open spec fn deep_view(&self) -> GenErrorModel {
        match self {
            InvocationGenError::Attribute(a, l) => GenErrorModel::Attribute(a@, *l),
            InvocationGenError::UnsupportedNodeType(t, l) => GenErrorModel::UnsupportedNodeType(
                t@,
                *l,
            ),
        }
    }
}

/// One inline documentation markup leaf.
#[derive(Debug, PartialEq)]
pub enum LeafNode {
    PCData(String),
    TextTT(String),
    AutoRef { label: String },
    ShortRef { sec: String },
    Obj { name: String },
}

impl DeepView for LeafNode {
    type V = LeafNodeModel;

    open spec fn deep_view(&self) -> LeafNodeModel {
        match self {
            LeafNode::PCData(s) => LeafNodeModel::PCData(s@),
            LeafNode::TextTT(s) => LeafNodeModel::TextTT(s@),
            LeafNode::AutoRef { label } => LeafNodeModel::AutoRef { label: label@ },
            LeafNode::ShortRef { sec } => LeafNodeModel::ShortRef { sec: sec@ },
            LeafNode::Obj { name } => LeafNodeModel::Obj { name: name@ },
        }
    }
}

/// One documentation leaf: a cross-reference wrapper around further inline
/// content, or a single inline leaf.
#[derive(Debug, PartialEq)]
pub enum DocLeaf {
    DocRef(Vec<LeafNode>),
    Leaf(LeafNode),
}

impl DeepView for DocLeaf {
    type V = DocLeafModel;

    open spec fn deep_view(&self) -> DocLeafModel {
        match self {
            DocLeaf::DocRef(ls) => DocLeafModel::DocRef(ls.deep_view()),
            DocLeaf::Leaf(l) => DocLeafModel::Leaf(l.deep_view()),
        }
    }
}

/// One entry of a method's return section.
#[derive(Debug, PartialEq)]
pub enum Return {
    ErrorEnumDesc,
    Leaves(DocLeaf),
}

impl DeepView for Return {
    type V = ReturnModel;

    open spec fn deep_view(&self) -> ReturnModel {
        match self {
            Return::ErrorEnumDesc => ReturnModel::ErrorEnumDesc,
            Return::Leaves(l) => ReturnModel::Leaves(l.deep_view()),
        }
    }
}

/// The capability parameter of a method, sourced only from the
/// `append_description` attribute of a `cap_param` element.
#[derive(Debug, PartialEq)]
pub struct CapParam {
    pub append_description: String,
}

impl DeepView for CapParam {
    type V = CapParamModel;

    open spec fn deep_view(&self) -> CapParamModel {
        CapParamModel { append_description: self.append_description@ }
    }
}

/// One error element: a name, and description leaves drawn from the
/// `description` attribute, a child element, or both.
#[derive(Debug, PartialEq)]
pub struct ErrorElement {
    pub name: String,
    pub description: Vec<DocLeaf>,
}

impl DeepView for ErrorElement {
    type V = ErrorElementModel;

    open spec fn deep_view(&self) -> ErrorElementModel {
        ErrorElementModel { name: self.name@, description: self.description.deep_view() }
    }
}

/// One method parameter.
#[derive(Debug, PartialEq)]
pub struct Param {
    pub typ: String,
    pub name: String,
    pub dir: String,
    pub description: Vec<DocLeaf>,
    pub errors: Vec<ErrorElement>,
}

impl DeepView for Param {
    type V = ParamModel;

    open spec fn deep_view(&self) -> ParamModel {
        ParamModel {
            typ: self.typ@,
            name: self.name@,
            dir: self.dir@,
            description: self.description.deep_view(),
            errors: self.errors.deep_view(),
        }
    }
}

/// One remotely-callable method of an interface.
#[derive(Debug, PartialEq)]
pub struct Method {
    pub name: String,
    pub id: String,
    pub condition: Option<String>,
    pub manual_name: Option<String>,
    pub manual_label: Option<String>,
    pub brief: Vec<DocLeaf>,
    pub description: Vec<DocLeaf>,
    pub return_value: Vec<Return>,
    pub cap_param: Option<CapParam>,
    pub params: Vec<Param>,
    pub errors: Vec<ErrorElement>,
}

impl DeepView for Method {
    type V = MethodModel;

    open spec fn deep_view(&self) -> MethodModel {
        MethodModel {
            name: self.name@,
            id: self.id@,
            condition: self.condition.deep_view(),
            manual_name: self.manual_name.deep_view(),
            manual_label: self.manual_label.deep_view(),
            brief: self.brief.deep_view(),
            description: self.description.deep_view(),
            return_value: self.return_value.deep_view(),
            cap_param: self.cap_param.deep_view(),
            params: self.params.deep_view(),
            errors: self.errors.deep_view(),
        }
    }
}

/// One root-level child of the document: a plain data struct, or an
/// interface owning methods.
#[derive(Debug, PartialEq)]
pub enum ApiElement {
    StructElem { name: String, members: Vec<String> },
    Interface {
        name: String,
        manual_name: Option<String>,
        cap_desc: Option<String>,
        methods: Vec<Method>,
    },
}

impl DeepView for ApiElement {
    type V = ApiElementModel;

    open spec fn deep_view(&self) -> ApiElementModel {
        match self {
            ApiElement::StructElem { name, members } => ApiElementModel::StructElem {
                name: name@,
                members: members.deep_view(),
            },
            ApiElement::Interface { name, manual_name, cap_desc, methods } => {
                ApiElementModel::Interface {
                    name: name@,
                    manual_name: manual_name.deep_view(),
                    cap_desc: cap_desc.deep_view(),
                    methods: methods.deep_view(),
                }
            },
        }
    }
}

/// The fully materialized document: optional root attributes and the
/// ordered root-level children.
#[derive(Debug, PartialEq)]
pub struct Api {
    pub name: Option<String>,
    pub label_prefix: Option<String>,
    pub children: Vec<ApiElement>,
}

impl DeepView for Api {
    type V = ApiModel;

    open spec fn deep_view(&self) -> ApiModel {
        ApiModel {
            name: self.name.deep_view(),
            label_prefix: self.label_prefix.deep_view(),
            children: self.children.deep_view(),
        }
    }
}

impl LeafNode {
    /// Builds one inline leaf from a node: text becomes `PCData`, elements
    /// dispatch on their case-folded tag name, anything else fails.
    pub fn try_from_node(n: &XmlNode) -> (r: Result<LeafNode, InvocationGenError>)
        ensures
            res_model(r) == parse_leaf(n@),
    {
        match n {
            XmlNode::Text { text } => Ok(LeafNode::PCData(text.clone())),
            XmlNode::Element { tag, .. } => {
                if crate::xml::str_lower_eq(tag.as_str(), "texttt") {
                    match n.req_attr("text", Loc::LeafNode) {
                        Ok(v) => Ok(LeafNode::TextTT(v)),
                        Err(e) => Err(e),
                    }
                } else if crate::xml::str_lower_eq(tag.as_str(), "shortref") {
                    match n.req_attr("sec", Loc::LeafNode) {
                        Ok(v) => Ok(LeafNode::ShortRef { sec: v }),
                        Err(e) => Err(e),
                    }
                } else if crate::xml::str_lower_eq(tag.as_str(), "autoref") {
                    match n.req_attr("label", Loc::LeafNode) {
                        Ok(v) => Ok(LeafNode::ShortRef { sec: v }),
                        Err(e) => Err(e),
                    }
                } else if crate::xml::str_lower_eq(tag.as_str(), "obj") {
                    match n.req_attr("name", Loc::LeafNode) {
                        Ok(v) => Ok(LeafNode::Obj { name: v }),
                        Err(e) => Err(e),
                    }
                } else {
                    Err(InvocationGenError::UnsupportedNodeType(tag.clone(), Loc::LeafNode))
                }
            },
            XmlNode::Comment => Err(
                InvocationGenError::UnsupportedNodeType(String::new(), Loc::LeafNode),
            ),
        }
    }
}

impl DocLeaf {
    /// Builds one documentation leaf: a `docref` element wraps its children
    /// as a cross-reference, any other node becomes a single inline leaf.
    #[verifier::loop_isolation(false)]
    pub fn try_from_node(n: &XmlNode) -> (r: Result<DocLeaf, InvocationGenError>)
        ensures
            res_model(r) == crate::grammar::parse_doc_leaf(n@),
    {
        match n {
            XmlNode::Element { tag, children, .. } => {
                if crate::xml::str_lower_eq(tag.as_str(), "docref") {
                    let ghost ics = crate::xml::nodes_model(children@);
                    proof {
                        crate::xml::lemma_nodes_model(children@);
                    }
                    let m = children.len();
                    let mut leaves: Vec<LeafNode> = Vec::new();
                    let mut k: usize = 0;
                    while k < m
                        invariant
                            ics == crate::xml::nodes_model(children@),
                            m == children@.len(),
                            k <= m,
                            ({
                                match crate::grammar::parse_leaves_from(ics, k as int) {
                                    Ok(rest) => crate::grammar::parse_leaves_from(ics, 0) == Ok::<
                                        _,
                                        GenErrorModel,
                                    >(leaves.deep_view() + rest),
                                    Err(e) => crate::grammar::parse_leaves_from(ics, 0) == Err::<
                                        Seq<LeafNodeModel>,
                                        _,
                                    >(e),
                                }
                            }),
                        decreases m - k,
                    {
                        let ghost pre_dv = leaves.deep_view();
                        match LeafNode::try_from_node(&children[k]) {
                            Ok(l) => {
                                leaves.push(l);
                                proof {
                                    assert(leaves.deep_view() =~= pre_dv.push(l.deep_view()));
                                    assert(pre_dv.push(l.deep_view()) + (
                                    match crate::grammar::parse_leaves_from(ics, k as int + 1) {
                                        Ok(rest) => rest,
                                        Err(_) => Seq::empty(),
                                    }) =~= pre_dv + (seq![l.deep_view()] + (
                                    match crate::grammar::parse_leaves_from(ics, k as int + 1) {
                                        Ok(rest) => rest,
                                        Err(_) => Seq::empty(),
                                    })));
                                }
                            },
                            Err(e) => {
                                return Err(e);
                            },
                        }
                        k += 1;
                    }
                    proof {
                        assert(leaves.deep_view() + Seq::<LeafNodeModel>::empty()
                            =~= leaves.deep_view());
                    }
                    Ok(DocLeaf::DocRef(leaves))
                } else {
                    match LeafNode::try_from_node(n) {
                        Ok(l) => Ok(DocLeaf::Leaf(l)),
                        Err(e) => Err(e),
                    }
                }
            },
            _ => match LeafNode::try_from_node(n) {
                Ok(l) => Ok(DocLeaf::Leaf(l)),
                Err(e) => Err(e),
            },
        }
    }
}

impl Return {
    /// Builds one return-section entry: the `errorenumdesc` marker element,
    /// or a documentation leaf for anything else.
    pub fn try_from_node(n: &XmlNode) -> (r: Result<Return, InvocationGenError>)
        ensures
            res_model(r) == crate::grammar::parse_return(n@),
    {
        let is_marker = match n {
            XmlNode::Element { tag, .. } => crate::xml::str_lower_eq(tag.as_str(), "errorenumdesc"),
            _ => false,
        };
        if is_marker {
            Ok(Return::ErrorEnumDesc)
        } else {
            match DocLeaf::try_from_node(n) {
                Ok(l) => Ok(Return::Leaves(l)),
                Err(e) => Err(e),
            }
        }
    }
}

impl ErrorElement {
    /// Builds one error element: the required `name`, then description
    /// leaves drawn from the `description` attribute, an equally named
    /// child element, or both, attribute first.
    #[verifier::loop_isolation(false)]
    pub fn try_from_node(n: &XmlNode) -> (r: Result<ErrorElement, InvocationGenError>)
        ensures
            res_model(r) == crate::grammar::parse_error_element(n@),
    {
        let name = match n.req_attr("name", Loc::ErrorElement) {
            Ok(v) => v,
            Err(e) => {
                return Err(e);
            },
        };
        let mut description: Vec<DocLeaf> = Vec::new();
        if let Some(t) = n.opt_attr("description") {
            description.push(DocLeaf::Leaf(LeafNode::PCData(t)));
        }
        let ghost head = description.deep_view();
        proof {
            assert(head =~= (match crate::xml::attr_value(
                crate::xml::node_attrs(n@),
                "description"@,
            ) {
                Some(t) => seq![DocLeafModel::Leaf(LeafNodeModel::PCData(t))],
                None => Seq::<DocLeafModel>::empty(),
            }));
        }
        match n {
            XmlNode::Element { children, .. } => {
                let ghost cs = crate::xml::nodes_model(children@);
                let ghost sig = crate::xml::significant(cs);
                proof {
                    crate::xml::lemma_nodes_model(children@);
                    crate::xml::lemma_filter_aligned_zero(cs, crate::xml::sig_pred());
                }
                let j = crate::invocation_helper::skip_irrelevant(children, 0);
                if j < children.len() {
                    proof {
                        crate::xml::lemma_filter_aligned_step(cs, crate::xml::sig_pred(), j as int, 0);
                    }
                    match crate::invocation_helper::take_leaves_from_element(
                        children,
                        j,
                        "description",
                        &mut description,
                    ) {
                        Ok(_next) => {},
                        Err(e) => {
                            return Err(e);
                        },
                    }
                } else {
                    proof {
                        crate::xml::lemma_filter_aligned_end(cs, crate::xml::sig_pred(), j as int, 0);
                        assert(description.deep_view() =~= head + Seq::<DocLeafModel>::empty());
                    }
                }
                proof {
                    assert(description.deep_view() =~= head + description.deep_view().skip(
                        head.len() as int,
                    ));
                }
                Ok(ErrorElement { name, description })
            },
            _ => {
                proof {
                    assert(crate::xml::node_children(n@) =~= Seq::<crate::xml::NodeModel>::empty());
                    crate::xml::lemma_filter_aligned_zero(
                        crate::xml::node_children(n@),
                        crate::xml::sig_pred(),
                    );
                    assert(crate::xml::significant(crate::xml::node_children(n@)).len() == 0);
                    assert(description.deep_view() =~= head + Seq::<DocLeafModel>::empty());
                }
                Ok(ErrorElement { name, description })
            },
        }
    }
}

impl Param {
    /// Builds one parameter: requires `type`, `name` and `dir`; a
    /// description drawn additively from attribute and child element; then
    /// every further significant child interpreted as an error element.
    #[verifier::loop_isolation(false)]
    pub fn try_from_node(n: &XmlNode) -> (r: Result<Param, InvocationGenError>)
        ensures
            res_model(r) == crate::grammar::parse_param(n@),
    {
        match n {
            XmlNode::Element { tag, children, .. } => {
                if !crate::xml::str_lower_eq(tag.as_str(), "param") {
                    return Err(InvocationGenError::UnsupportedNodeType(tag.clone(), Loc::Param));
                }
                let typ = match n.req_attr("type", Loc::Param) {
                    Ok(v) => v,
                    Err(e) => {
                        return Err(e);
                    },
                };
                let name = match n.req_attr("name", Loc::Param) {
                    Ok(v) => v,
                    Err(e) => {
                        return Err(e);
                    },
                };
                let dir = match n.req_attr("dir", Loc::Param) {
                    Ok(v) => v,
                    Err(e) => {
                        return Err(e);
                    },
                };
                let mut description: Vec<DocLeaf> = Vec::new();
                if let Some(t) = n.opt_attr("description") {
                    description.push(DocLeaf::Leaf(LeafNode::PCData(t)));
                }
                let ghost head = description.deep_view();
                proof {
                    assert(head =~= (match crate::xml::attr_value(
                        crate::xml::node_attrs(n@),
                        "description"@,
                    ) {
                        Some(t) => seq![DocLeafModel::Leaf(LeafNodeModel::PCData(t))],
                        None => Seq::<DocLeafModel>::empty(),
                    }));
                }
                let ghost cs = crate::xml::nodes_model(children@);
                let ghost sig = crate::xml::significant(cs);
                proof {
                    crate::xml::lemma_nodes_model(children@);
                    crate::xml::lemma_filter_aligned_zero(cs, crate::xml::sig_pred());
                }
                let n_ch = children.len();
                let j0 = crate::invocation_helper::skip_irrelevant(children, 0);
                let mut pos: usize = j0;
                let ghost mut p: int = 0;
                if j0 < n_ch {
                    proof {
                        crate::xml::lemma_filter_aligned_step(
                            cs,
                            crate::xml::sig_pred(),
                            j0 as int,
                            0,
                        );
                    }
                    match crate::invocation_helper::take_leaves_from_element(
                        children,
                        j0,
                        "description",
                        &mut description,
                    ) {
                        Ok(np) => {
                            pos = np;
                            proof {
                                if crate::xml::elem_with_tag(cs[j0 as int], "description"@) {
                                    p = 1;
                                }
                            }
                        },
                        Err(e) => {
                            return Err(e);
                        },
                    }
                } else {
                    proof {
                        crate::xml::lemma_filter_aligned_end(cs, crate::xml::sig_pred(), j0 as int, 0);
                    }
                }
                proof {
                    assert(crate::xml::filter_aligned(cs, crate::xml::sig_pred(), pos as int, p));
                    assert(crate::grammar::take_leaves_at(sig, 0, "description"@) matches Ok(
                        (ls, q),
                    ) && q == p && description.deep_view() == head + ls);
                }
                let ghost p0 = p;
                let mut errors: Vec<ErrorElement> = Vec::new();
                let mut j = crate::invocation_helper::skip_irrelevant(children, pos);
                while j < n_ch
                    invariant
                        n_ch == children@.len(),
                        j <= n_ch,
                        j < n_ch ==> crate::xml::is_significant(cs[j as int]),
                        crate::xml::filter_aligned(cs, crate::xml::sig_pred(), j as int, p),
                        ({
                            match crate::grammar::parse_errors_at(sig, p) {
                                Ok(rest) => crate::grammar::parse_errors_at(sig, p0) == Ok::<
                                    _,
                                    GenErrorModel,
                                >(errors.deep_view() + rest),
                                Err(e) => crate::grammar::parse_errors_at(sig, p0) == Err::<
                                    Seq<ErrorElementModel>,
                                    _,
                                >(e),
                            }
                        }),
                    decreases n_ch - j,
                {
                    proof {
                        crate::xml::lemma_filter_aligned_step(cs, crate::xml::sig_pred(), j as int, p);
                    }
                    let ghost pre = errors.deep_view();
                    match ErrorElement::try_from_node(&children[j]) {
                        Ok(e) => {
                            errors.push(e);
                            proof {
                                assert(errors.deep_view() =~= pre.push(e.deep_view()));
                                assert(pre.push(e.deep_view()) + (
                                match crate::grammar::parse_errors_at(sig, p + 1) {
                                    Ok(rest) => rest,
                                    Err(_) => Seq::empty(),
                                }) =~= pre + (seq![e.deep_view()] + (
                                match crate::grammar::parse_errors_at(sig, p + 1) {
                                    Ok(rest) => rest,
                                    Err(_) => Seq::empty(),
                                })));
                                p = p + 1;
                            }
                            j = crate::invocation_helper::skip_irrelevant(children, j + 1);
                        },
                        Err(e) => {
                            return Err(e);
                        },
                    }
                }
                proof {
                    crate::xml::lemma_filter_aligned_end(cs, crate::xml::sig_pred(), j as int, p);
                    assert(errors.deep_view() + Seq::<ErrorElementModel>::empty()
                        =~= errors.deep_view());
                }
                Ok(Param { typ, name, dir, description, errors })
            },
            _ => Err(InvocationGenError::UnsupportedNodeType(String::new(), Loc::Param)),
        }
    }
}

/// Whether the node is an element whose case-folded tag name is `param`.
fn is_param_node(n: &XmlNode) -> (r: bool)
    ensures
        r == crate::grammar::is_param_elem(n@),
{
    match n {
        XmlNode::Element { tag, .. } => crate::xml::str_lower_eq(tag.as_str(), "param"),
        _ => false,
    }
}

impl Method {
    /// Builds one method: required `name` and `id`, three optional
    /// attributes, then the fixed grammar of optional ordered sections over
    /// the significant children: brief, description, return, a single
    /// `cap_param`, and the parameter run.  Significant siblings after the
    /// run are left unconsumed, and the error sequence is never populated.
    #[verifier::loop_isolation(false)]
    pub fn try_from_node(n: &XmlNode) -> (r: Result<Method, InvocationGenError>)
        ensures
            res_model(r) == crate::grammar::parse_method(n@),
    {
        let name = match n.req_attr("name", Loc::Method) {
            Ok(v) => v,
            Err(e) => {
                return Err(e);
            },
        };
        let id = match n.req_attr("id", Loc::Method) {
            Ok(v) => v,
            Err(e) => {
                return Err(e);
            },
        };
        let condition = n.opt_attr("condition");
        let manual_name = n.opt_attr("manual_name");
        let manual_label = n.opt_attr("manual_label");
        let mut brief: Vec<DocLeaf> = Vec::new();
        let mut description: Vec<DocLeaf> = Vec::new();
        let mut return_value: Vec<Return> = Vec::new();
        let mut cap_param: Option<CapParam> = None;
        let mut params: Vec<Param> = Vec::new();
        let errors: Vec<ErrorElement> = Vec::new();
        proof {
            assert(brief.deep_view() =~= Seq::<DocLeafModel>::empty());
            assert(description.deep_view() =~= Seq::<DocLeafModel>::empty());
            assert(return_value.deep_view() =~= Seq::<ReturnModel>::empty());
            assert(params.deep_view() =~= Seq::<ParamModel>::empty());
            assert(errors.deep_view() =~= Seq::<ErrorElementModel>::empty());
        }
        match n {
            XmlNode::Element { children, .. } => {
                let ghost cs = crate::xml::nodes_model(children@);
                let ghost sig = crate::xml::significant(cs);
                proof {
                    crate::xml::lemma_nodes_model(children@);
                    crate::xml::lemma_filter_aligned_zero(cs, crate::xml::sig_pred());
                }
                let n_ch = children.len();
                let mut pos: usize;
                let ghost mut p: int = 0;
                let j0 = crate::invocation_helper::skip_irrelevant(children, 0);
                pos = j0;
                if j0 < n_ch {
                    proof {
                        crate::xml::lemma_filter_aligned_step(cs, crate::xml::sig_pred(), j0 as int, 0);
                    }
                    match crate::invocation_helper::take_leaves_from_element(
                        children,
                        j0,
                        "brief",
                        &mut brief,
                    ) {
                        Ok(np) => {
                            pos = np;
                            proof {
                                if crate::xml::elem_with_tag(cs[j0 as int], "brief"@) {
                                    p = 1;
                                }
                            }
                        },
                        Err(e) => {
                            return Err(e);
                        },
                    }
                } else {
                    proof {
                        crate::xml::lemma_filter_aligned_end(cs, crate::xml::sig_pred(), j0 as int, 0);
                    }
                }
                let ghost p1 = p;
                proof {
                    assert(crate::xml::filter_aligned(cs, crate::xml::sig_pred(), pos as int, p));
                    assert(crate::grammar::take_leaves_at(sig, 0, "brief"@) matches Ok((ls, q))
                        && q == p1 && brief.deep_view() == ls);
                }
                let j1 = crate::invocation_helper::skip_irrelevant(children, pos);
                pos = j1;
                if j1 < n_ch {
                    proof {
                        crate::xml::lemma_filter_aligned_step(cs, crate::xml::sig_pred(), j1 as int, p);
                    }
                    match crate::invocation_helper::take_leaves_from_element(
                        children,
                        j1,
                        "description",
                        &mut description,
                    ) {
                        Ok(np) => {
                            pos = np;
                            proof {
                                if crate::xml::elem_with_tag(cs[j1 as int], "description"@) {
                                    p = p + 1;
                                }
                            }
                        },
                        Err(e) => {
                            return Err(e);
                        },
                    }
                } else {
                    proof {
                        crate::xml::lemma_filter_aligned_end(cs, crate::xml::sig_pred(), j1 as int, p);
                    }
                }
                let ghost p2 = p;
                proof {
                    assert(crate::xml::filter_aligned(cs, crate::xml::sig_pred(), pos as int, p));
                    assert(crate::grammar::take_leaves_at(sig, p1, "description"@) matches Ok(
                        (ls, q),
                    ) && q == p2 && description.deep_view() == ls);
                }
                let j2 = crate::invocation_helper::skip_irrelevant(children, pos);
                pos = j2;
                if j2 < n_ch {
                    proof {
                        crate::xml::lemma_filter_aligned_step(cs, crate::xml::sig_pred(), j2 as int, p);
                    }
                    match crate::invocation_helper::take_return_value_from_element(
                        children,
                        j2,
                        &mut return_value,
                    ) {
                        Ok(np) => {
                            pos = np;
                            proof {
                                if crate::xml::elem_with_tag(cs[j2 as int], "return"@) {
                                    p = p + 1;
                                }
                            }
                        },
                        Err(e) => {
                            return Err(e);
                        },
                    }
                } else {
                    proof {
                        crate::xml::lemma_filter_aligned_end(cs, crate::xml::sig_pred(), j2 as int, p);
                    }
                }
                let ghost p3 = p;
                proof {
                    assert(crate::xml::filter_aligned(cs, crate::xml::sig_pred(), pos as int, p));
                    assert(crate::grammar::take_returns_at(sig, p2) matches Ok((ls, q)) && q == p3
                        && return_value.deep_view() == ls);
                }
                let j3 = crate::invocation_helper::skip_irrelevant(children, pos);
                pos = j3;
                if j3 < n_ch {
                    proof {
                        crate::xml::lemma_filter_aligned_step(cs, crate::xml::sig_pred(), j3 as int, p);
                    }
                    let is_cap = match &children[j3] {
                        XmlNode::Element { tag, .. } => crate::xml::str_lower_eq(
                            tag.as_str(),
                            "cap_param",
                        ),
                        _ => false,
                    };
                    if is_cap {
                        cap_param = match children[j3].opt_attr("append_description") {
                            Some(t) => Some(CapParam { append_description: t }),
                            None => None,
                        };
                        pos = j3 + 1;
                        proof {
                            p = p + 1;
                        }
                    }
                } else {
                    proof {
                        crate::xml::lemma_filter_aligned_end(cs, crate::xml::sig_pred(), j3 as int, p);
                    }
                }
                let ghost p4 = p;
                proof {
                    assert(crate::xml::filter_aligned(cs, crate::xml::sig_pred(), pos as int, p));
                    assert(crate::grammar::take_cap_param_at(sig, p3) == (
                        cap_param.deep_view(),
                        p4,
                    ));
                }
                let mut j = crate::invocation_helper::skip_irrelevant(children, pos);
                while j < n_ch && is_param_node(&children[j])
                    invariant
                        n_ch == children@.len(),
                        j <= n_ch,
                        j < n_ch ==> crate::xml::is_significant(cs[j as int]),
                        crate::xml::filter_aligned(cs, crate::xml::sig_pred(), j as int, p),
                        ({
                            match crate::grammar::parse_params_at(sig, p) {
                                Ok(rest) => crate::grammar::parse_params_at(sig, p4) == Ok::<
                                    _,
                                    GenErrorModel,
                                >(params.deep_view() + rest),
                                Err(e) => crate::grammar::parse_params_at(sig, p4) == Err::<
                                    Seq<ParamModel>,
                                    _,
                                >(e),
                            }
                        }),
                    decreases n_ch - j,
                {
                    proof {
                        crate::xml::lemma_filter_aligned_step(cs, crate::xml::sig_pred(), j as int, p);
                    }
                    let ghost pre = params.deep_view();
                    match Param::try_from_node(&children[j]) {
                        Ok(pm) => {
                            params.push(pm);
                            proof {
                                assert(params.deep_view() =~= pre.push(pm.deep_view()));
                                assert(pre.push(pm.deep_view()) + (
                                match crate::grammar::parse_params_at(sig, p + 1) {
                                    Ok(rest) => rest,
                                    Err(_) => Seq::empty(),
                                }) =~= pre + (seq![pm.deep_view()] + (
                                match crate::grammar::parse_params_at(sig, p + 1) {
                                    Ok(rest) => rest,
                                    Err(_) => Seq::empty(),
                                })));
                                p = p + 1;
                            }
                            j = crate::invocation_helper::skip_irrelevant(children, j + 1);
                        },
                        Err(e) => {
                            return Err(e);
                        },
                    }
                }
                proof {
                    if j == n_ch {
                        crate::xml::lemma_filter_aligned_end(cs, crate::xml::sig_pred(), j as int, p);
                    } else {
                        crate::xml::lemma_filter_aligned_step(cs, crate::xml::sig_pred(), j as int, p);
                    }
                    assert(params.deep_view() + Seq::<ParamModel>::empty() =~= params.deep_view());
                }
                Ok(
                    Method {
                        name,
                        id,
                        condition,
                        manual_name,
                        manual_label,
                        brief,
                        description,
                        return_value,
                        cap_param,
                        params,
                        errors,
                    },
                )
            },
            _ => {
                proof {
                    let ghost ecs = crate::xml::node_children(n@);
                    assert(ecs =~= Seq::<crate::xml::NodeModel>::empty());
                    crate::xml::lemma_filter_aligned_zero(ecs, crate::xml::sig_pred());
                    assert(ecs.take(0) =~= ecs);
                    assert(crate::xml::significant(ecs).len() == 0);
                }
                Ok(
                    Method {
                        name,
                        id,
                        condition,
                        manual_name,
                        manual_label,
                        brief,
                        description,
                        return_value,
                        cap_param,
                        params,
                        errors,
                    },
                )
            },
        }
    }
}

impl ApiElement {
    /// Builds one root-level child, dispatching on the case-folded tag
    /// name: `struct` collects the required `name` attribute of every
    /// element-typed child as its members, `interface` builds every
    /// significant child as a method, and any other name fails, reporting
    /// the offending tag.
    #[verifier::loop_isolation(false)]
    pub fn try_from_node(n: &XmlNode) -> (r: Result<ApiElement, InvocationGenError>)
        ensures
            res_model(r) == crate::grammar::parse_api_element(n@),
    {
        match n {
            XmlNode::Element { tag, children, .. } => {
                if crate::xml::str_lower_eq(tag.as_str(), "struct") {
                    let name = match n.req_attr("name", Loc::StructElem) {
                        Ok(v) => v,
                        Err(e) => {
                            return Err(e);
                        },
                    };
                    let ghost cs = crate::xml::nodes_model(children@);
                    let ghost ec = crate::xml::element_children(cs);
                    proof {
                        crate::xml::lemma_nodes_model(children@);
                        crate::xml::lemma_filter_aligned_zero(cs, crate::xml::elem_pred());
                    }
                    let n_ch = children.len();
                    let mut members: Vec<String> = Vec::new();
                    let ghost mut p: int = 0;
                    let mut k: usize = 0;
                    while k < n_ch
                        invariant
                            n_ch == children@.len(),
                            k <= n_ch,
                            crate::xml::filter_aligned(cs, crate::xml::elem_pred(), k as int, p),
                            ({
                                match crate::grammar::parse_members_at(ec, p) {
                                    Ok(rest) => crate::grammar::parse_members_at(ec, 0) == Ok::<
                                        _,
                                        GenErrorModel,
                                    >(members.deep_view() + rest),
                                    Err(e) => crate::grammar::parse_members_at(ec, 0) == Err::<
                                        Seq<Seq<char>>,
                                        _,
                                    >(e),
                                }
                            }),
                        decreases n_ch - k,
                    {
                        proof {
                            crate::xml::lemma_filter_aligned_step(cs, crate::xml::elem_pred(), k as int, p);
                        }
                        let is_elem = match &children[k] {
                            XmlNode::Element { .. } => true,
                            _ => false,
                        };
                        if is_elem {
                            let ghost pre = members.deep_view();
                            match children[k].req_attr("name", Loc::StructElem) {
                                Ok(m) => {
                                    members.push(m);
                                    proof {
                                        assert(members.deep_view() =~= pre.push(m@));
                                        assert(pre.push(m@) + (
                                        match crate::grammar::parse_members_at(ec, p + 1) {
                                            Ok(rest) => rest,
                                            Err(_) => Seq::empty(),
                                        }) =~= pre + (seq![m@] + (
                                        match crate::grammar::parse_members_at(ec, p + 1) {
                                            Ok(rest) => rest,
                                            Err(_) => Seq::empty(),
                                        })));
                                        p = p + 1;
                                    }
                                },
                                Err(e) => {
                                    return Err(e);
                                },
                            }
                        }
                        k += 1;
                    }
                    proof {
                        crate::xml::lemma_filter_aligned_end(cs, crate::xml::elem_pred(), k as int, p);
                        assert(members.deep_view() + Seq::<Seq<char>>::empty()
                            =~= members.deep_view());
                    }
                    Ok(ApiElement::StructElem { name, members })
                } else if crate::xml::str_lower_eq(tag.as_str(), "interface") {
                    let name = match n.req_attr("name", Loc::Interface) {
                        Ok(v) => v,
                        Err(e) => {
                            return Err(e);
                        },
                    };
                    let manual_name = n.opt_attr("manual_name");
                    let cap_desc = n.opt_attr("capability_description");
                    let ghost cs = crate::xml::nodes_model(children@);
                    let ghost sig = crate::xml::significant(cs);
                    proof {
                        crate::xml::lemma_nodes_model(children@);
                        crate::xml::lemma_filter_aligned_zero(cs, crate::xml::sig_pred());
                    }
                    let n_ch = children.len();
                    let mut methods: Vec<Method> = Vec::new();
                    let ghost mut p: int = 0;
                    let mut j = crate::invocation_helper::skip_irrelevant(children, 0);
                    while j < n_ch
                        invariant
                            n_ch == children@.len(),
                            j <= n_ch,
                            j < n_ch ==> crate::xml::is_significant(cs[j as int]),
                            crate::xml::filter_aligned(cs, crate::xml::sig_pred(), j as int, p),
                            ({
                                match crate::grammar::parse_methods_at(sig, p) {
                                    Ok(rest) => crate::grammar::parse_methods_at(sig, 0) == Ok::<
                                        _,
                                        GenErrorModel,
                                    >(methods.deep_view() + rest),
                                    Err(e) => crate::grammar::parse_methods_at(sig, 0) == Err::<
                                        Seq<MethodModel>,
                                        _,
                                    >(e),
                                }
                            }),
                        decreases n_ch - j,
                    {
                        proof {
                            crate::xml::lemma_filter_aligned_step(cs, crate::xml::sig_pred(), j as int, p);
                        }
                        let ghost pre = methods.deep_view();
                        match Method::try_from_node(&children[j]) {
                            Ok(m) => {
                                methods.push(m);
                                proof {
                                    assert(methods.deep_view() =~= pre.push(m.deep_view()));
                                    assert(pre.push(m.deep_view()) + (
                                    match crate::grammar::parse_methods_at(sig, p + 1) {
                                        Ok(rest) => rest,
                                        Err(_) => Seq::empty(),
                                    }) =~= pre + (seq![m.deep_view()] + (
                                    match crate::grammar::parse_methods_at(sig, p + 1) {
                                        Ok(rest) => rest,
                                        Err(_) => Seq::empty(),
                                    })));
                                    p = p + 1;
                                }
                                j = crate::invocation_helper::skip_irrelevant(children, j + 1);
                            },
                            Err(e) => {
                                return Err(e);
                            },
                        }
                    }
                    proof {
                        crate::xml::lemma_filter_aligned_end(cs, crate::xml::sig_pred(), j as int, p);
                        assert(methods.deep_view() + Seq::<MethodModel>::empty()
                            =~= methods.deep_view());
                    }
                    Ok(ApiElement::Interface { name, manual_name, cap_desc, methods })
                } else {
                    Err(InvocationGenError::UnsupportedNodeType(tag.clone(), Loc::ApiElement))
                }
            },
            _ => {
                proof {
                    reveal_strlit("struct");
                    reveal_strlit("interface");
                }
                Err(InvocationGenError::UnsupportedNodeType(String::new(), Loc::ApiElement))
            },
        }
    }
}

impl Api {
    /// Builds the whole document from its root element: optional `name`
    /// and `label_prefix` attributes, then every significant root child in
    /// document order; the first failing child aborts the build.
    #[verifier::loop_isolation(false)]
    pub fn try_from_root(root: &XmlNode) -> (r: Result<Api, InvocationGenError>)
        ensures
            res_model(r) == crate::grammar::parse_api(root@),
    {
        let name = root.opt_attr("name");
        let label_prefix = root.opt_attr("label_prefix");
        match root {
            XmlNode::Element { children, .. } => {
                let ghost cs = crate::xml::nodes_model(children@);
                let ghost sig = crate::xml::significant(cs);
                proof {
                    crate::xml::lemma_nodes_model(children@);
                    crate::xml::lemma_filter_aligned_zero(cs, crate::xml::sig_pred());
                }
                let n_ch = children.len();
                let mut elems: Vec<ApiElement> = Vec::new();
                let ghost mut p: int = 0;
                let mut j = crate::invocation_helper::skip_irrelevant(children, 0);
                while j < n_ch
                    invariant
                        n_ch == children@.len(),
                        j <= n_ch,
                        j < n_ch ==> crate::xml::is_significant(cs[j as int]),
                        crate::xml::filter_aligned(cs, crate::xml::sig_pred(), j as int, p),
                        ({
                            match crate::grammar::parse_api_elements_at(sig, p) {
                                Ok(rest) => crate::grammar::parse_api_elements_at(sig, 0) == Ok::<
                                    _,
                                    GenErrorModel,
                                >(elems.deep_view() + rest),
                                Err(e) => crate::grammar::parse_api_elements_at(sig, 0) == Err::<
                                    Seq<ApiElementModel>,
                                    _,
                                >(e),
                            }
                        }),
                    decreases n_ch - j,
                {
                    proof {
                        crate::xml::lemma_filter_aligned_step(cs, crate::xml::sig_pred(), j as int, p);
                    }
                    let ghost pre = elems.deep_view();
                    match ApiElement::try_from_node(&children[j]) {
                        Ok(e) => {
                            elems.push(e);
                            proof {
                                assert(elems.deep_view() =~= pre.push(e.deep_view()));
                                assert(pre.push(e.deep_view()) + (
                                match crate::grammar::parse_api_elements_at(sig, p + 1) {
                                    Ok(rest) => rest,
                                    Err(_) => Seq::empty(),
                                }) =~= pre + (seq![e.deep_view()] + (
                                match crate::grammar::parse_api_elements_at(sig, p + 1) {
                                    Ok(rest) => rest,
                                    Err(_) => Seq::empty(),
                                })));
                                p = p + 1;
                            }
                            j = crate::invocation_helper::skip_irrelevant(children, j + 1);
                        },
                        Err(e) => {
                            return Err(e);
                        },
                    }
                }
                proof {
                    crate::xml::lemma_filter_aligned_end(cs, crate::xml::sig_pred(), j as int, p);
                    assert(elems.deep_view() + Seq::<ApiElementModel>::empty()
                        =~= elems.deep_view());
                }
                Ok(Api { name, label_prefix, children: elems })
            },
            _ => {
                let elems: Vec<ApiElement> = Vec::new();
                proof {
                    let ghost ecs = crate::xml::node_children(root@);
                    assert(ecs =~= Seq::<crate::xml::NodeModel>::empty());
                    crate::xml::lemma_filter_aligned_zero(ecs, crate::xml::sig_pred());
                    assert(ecs.take(0) =~= ecs);
                    assert(crate::xml::significant(ecs).len() == 0);
                    assert(elems.deep_view() =~= Seq::<ApiElementModel>::empty());
                }
                Ok(Api { name, label_prefix, children: elems })
            },
        }
    }
}

} // verus!
