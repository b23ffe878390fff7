//! The generic XML tree the walkers consume, and its mathematical model.
//!
//! A document is handed to the library as a tree of [`XmlNode`] values:
//! elements with attributes and children, text nodes, and comments.  The
//! model of a node is a [`NodeModel`], where every string is a `Seq<char>`;
//! all contracts of the builders are stated over `NodeModel` trees.

use vstd::prelude::*;

verus! {

/// Mathematical model of one XML tree node.
pub enum NodeModel {
    Element { tag: Seq<char>, attrs: Seq<(Seq<char>, Seq<char>)>, children: Seq<NodeModel> },
    Text { text: Seq<char> },
    Comment,
}

/// One node of an XML tree: an element with its attributes and children in
/// document order, a text node, or a comment.  Node kinds outside this
/// vocabulary (such as processing instructions) are represented by callers
/// as elements with an empty tag name, which no builder recognizes.
#[derive(Debug, PartialEq)]
pub enum XmlNode {
    Element { tag: String, attrs: Vec<(String, String)>, children: Vec<XmlNode> },
    Text { text: String },
    Comment,
}

/// The model of a node: the same tree with every string as a `Seq<char>`.
pub open spec fn node_model(n: XmlNode) -> NodeModel
    decreases n,
{
    match n {
        XmlNode::Element { tag, attrs, children } => NodeModel::Element {
            tag: tag@,
            attrs: attrs.deep_view(),
            children: nodes_model(children@),
        },
        XmlNode::Text { text } => NodeModel::Text { text: text@ },
        XmlNode::Comment => NodeModel::Comment,
    }
}

/// The models of a sequence of sibling nodes, in order.
pub open spec fn nodes_model(ns: Seq<XmlNode>) -> Seq<NodeModel>
    decreases ns,
{
    if ns.len() == 0 {
        Seq::empty()
    } else {
        seq![node_model(ns[0])] + nodes_model(ns.drop_first())
    }
}

pub broadcast proof fn lemma_nodes_model(ns: Seq<XmlNode>)
    ensures
        #[trigger] nodes_model(ns).len() == ns.len(),
        forall|i: int| 0 <= i < ns.len() ==> nodes_model(ns)[i] == node_model(ns[i]),
    decreases ns,
{
    if ns.len() > 0 {
        lemma_nodes_model(ns.drop_first());
        assert forall|i: int| 0 <= i < ns.len() implies nodes_model(ns)[i] == node_model(
            ns[i],
        ) by {
            if i > 0 {
                assert(nodes_model(ns)[i] == nodes_model(ns.drop_first())[i - 1]);
            }
        }
    }
}

impl View for XmlNode {
    type V = NodeModel;

    open spec fn view(&self) -> NodeModel {
        node_model(*self)
    }
}

impl DeepView for XmlNode {
    type V = NodeModel;

    open spec fn deep_view(&self) -> NodeModel {
        node_model(*self)
    }
}

/// The children of an element node; other nodes have none.
pub open spec fn node_children(n: NodeModel) -> Seq<NodeModel> {
    match n {
        NodeModel::Element { children, .. } => children,
        _ => Seq::empty(),
    }
}

/// The attributes of an element node; other nodes have none.
pub open spec fn node_attrs(n: NodeModel) -> Seq<(Seq<char>, Seq<char>)> {
    match n {
        NodeModel::Element { attrs, .. } => attrs,
        _ => Seq::empty(),
    }
}

/// The tag name of an element node; other nodes have an empty one.
pub open spec fn node_tag(n: NodeModel) -> Seq<char> {
    match n {
        NodeModel::Element { tag, .. } => tag,
        _ => Seq::empty(),
    }
}

/// Whether `c` has the Unicode `White_Space` property, the set `str::trim`
/// strips.
pub open spec fn is_space_char(c: char) -> bool {
    let u = c as u32;
    u == 0x20 || (0x9 <= u && u <= 0xd) || u == 0x85 || u == 0xa0 || u == 0x1680 || (0x2000 <= u
        && u <= 0x200a) || u == 0x2028 || u == 0x2029 || u == 0x202f || u == 0x205f || u == 0x3000
}

pub open spec fn whitespace_only(s: Seq<char>) -> bool {
    forall|i: int| 0 <= i < s.len() ==> is_space_char(s[i])
}

/// A node the sibling walkers pass over: a whitespace-only text node or a
/// comment.
pub open spec fn is_noise(n: NodeModel) -> bool {
    match n {
        NodeModel::Text { text } => whitespace_only(text),
        NodeModel::Comment => true,
        NodeModel::Element { .. } => false,
    }
}

pub open spec fn is_significant(n: NodeModel) -> bool {
    !is_noise(n)
}

pub open spec fn sig_pred() -> spec_fn(NodeModel) -> bool {
    |n: NodeModel| is_significant(n)
}

/// The subsequence of structurally significant siblings: what remains once
/// whitespace-only text and comments are dropped.
pub open spec fn significant(cs: Seq<NodeModel>) -> Seq<NodeModel> {
    cs.filter(sig_pred())
}

pub open spec fn elem_pred() -> spec_fn(NodeModel) -> bool {
    |n: NodeModel| n is Element
}

/// The subsequence of element-typed siblings, as the struct builder visits
/// them.
pub open spec fn element_children(cs: Seq<NodeModel>) -> Seq<NodeModel> {
    cs.filter(elem_pred())
}

/// One step of a filtered prefix: extending the prefix by one node either
/// appends that node to the filtered view or leaves it unchanged.
pub proof fn lemma_filter_take_step<A>(s: Seq<A>, pred: spec_fn(A) -> bool, k: int)
    requires
        0 <= k < s.len(),
    ensures
        s.take(k + 1).filter(pred) == if pred(s[k]) {
            s.take(k).filter(pred).push(s[k])
        } else {
            s.take(k).filter(pred)
        },
{
    let pre = s.take(k + 1);
    assert(pre.drop_last() =~= s.take(k));
    assert(pre.last() == s[k]);
    reveal_with_fuel(Seq::filter, 2);
}

/// A filtered prefix is a prefix of the filtered whole.
pub proof fn lemma_filter_take_prefix<A>(s: Seq<A>, pred: spec_fn(A) -> bool, i: int)
    requires
        0 <= i <= s.len(),
    ensures
        s.take(i).filter(pred).len() <= s.filter(pred).len(),
        s.take(i).filter(pred) == s.filter(pred).take(s.take(i).filter(pred).len() as int),
    decreases s.len(),
{
    reveal_with_fuel(Seq::filter, 2);
    if i == s.len() {
        assert(s.take(i) =~= s);
        assert(s.filter(pred).take(s.filter(pred).len() as int) =~= s.filter(pred));
    } else {
        let d = s.drop_last();
        lemma_filter_take_prefix(d, pred, i);
        assert(s.take(i) =~= d.take(i));
        let m = s.take(i).filter(pred).len() as int;
        assert(d.filter(pred).len() <= s.filter(pred).len());
        assert(s.filter(pred).take(m) =~= d.filter(pred).take(m));
    }
}

/// The filtered view of the full prefix is the filtered whole.
pub proof fn lemma_filter_take_full<A>(s: Seq<A>, pred: spec_fn(A) -> bool)
    ensures
        s.take(s.len() as int).filter(pred) == s.filter(pred),
{
    assert(s.take(s.len() as int) =~= s);
}

/// The walkers visit a raw child list while the grammar reads its filtered
/// view; this predicate ties the two positions together: the filtered view
/// of the first `i` raw siblings is exactly the first `p` entries of the
/// filtered whole.
pub open spec fn filter_aligned<A>(s: Seq<A>, pred: spec_fn(A) -> bool, i: int, p: int) -> bool {
    &&& 0 <= i <= s.len()
    &&& s.take(i).filter(pred) == s.filter(pred).take(p)
    &&& s.take(i).filter(pred).len() == p
}

pub proof fn lemma_filter_aligned_zero<A>(s: Seq<A>, pred: spec_fn(A) -> bool)
    ensures
        filter_aligned(s, pred, 0, 0),
{
    reveal_with_fuel(Seq::filter, 2);
    assert(s.take(0) =~= Seq::<A>::empty());
    assert(s.filter(pred).take(0) =~= Seq::<A>::empty());
    assert(Seq::<A>::empty().filter(pred) =~= Seq::<A>::empty());
}

/// Advancing past one raw sibling keeps the alignment: a passed-over
/// sibling leaves the filtered position alone, a kept one is exactly the
/// next entry of the filtered whole.
pub proof fn lemma_filter_aligned_step<A>(s: Seq<A>, pred: spec_fn(A) -> bool, i: int, p: int)
    requires
        filter_aligned(s, pred, i, p),
        i < s.len(),
    ensures
        pred(s[i]) ==> p < s.filter(pred).len() && s.filter(pred)[p] == s[i] && filter_aligned(
            s,
            pred,
            i + 1,
            p + 1,
        ),
        !pred(s[i]) ==> filter_aligned(s, pred, i + 1, p),
{
    lemma_filter_take_step(s, pred, i);
    lemma_filter_take_prefix(s, pred, i + 1);
    if pred(s[i]) {
        assert(s.take(i + 1).filter(pred) == s.take(i).filter(pred).push(s[i]));
        assert(s.take(i + 1).filter(pred).len() == p + 1);
        assert(s.filter(pred).take(p + 1)[p] == s[i]);
    }
}

/// At the end of the raw list the filtered position has reached the end of
/// the filtered whole.
pub proof fn lemma_filter_aligned_end<A>(s: Seq<A>, pred: spec_fn(A) -> bool, i: int, p: int)
    requires
        filter_aligned(s, pred, i, p),
        i == s.len(),
    ensures
        p == s.filter(pred).len(),
{
    lemma_filter_take_full(s, pred);
}

/// Inserting an element the filter drops leaves the filtered view
/// unchanged, wherever it is inserted.
pub proof fn lemma_filter_insert_skipped<A>(s: Seq<A>, pred: spec_fn(A) -> bool, k: int, x: A)
    requires
        0 <= k <= s.len(),
        !pred(x),
    ensures
        s.insert(k, x).filter(pred) == s.filter(pred),
    decreases s.len(),
{
    reveal_with_fuel(Seq::filter, 2);
    let ins = s.insert(k, x);
    if k == s.len() {
        assert(ins.drop_last() =~= s);
        assert(ins.last() == x);
    } else {
        assert(ins.drop_last() =~= s.drop_last().insert(k, x));
        assert(ins.last() == s.last());
        lemma_filter_insert_skipped(s.drop_last(), pred, k, x);
    }
}

/// First attribute value under the given name, searching in document order.
pub open spec fn attr_value(attrs: Seq<(Seq<char>, Seq<char>)>, name: Seq<char>) -> Option<
    Seq<char>,
>
    decreases attrs.len(),
{
    if attrs.len() == 0 {
        None
    } else if attrs[0].0 == name {
        Some(attrs[0].1)
    } else {
        attr_value(attrs.drop_first(), name)
    }
}

/// Lowercase code point of `c` under ASCII case folding.
pub open spec fn lower_code(c: char) -> int {
    let u = c as int;
    if 0x41 <= u && u <= 0x5a {
        u + 0x20
    } else {
        u
    }
}

/// Whether `s`, case-folded, spells exactly `t` (the grammar's tag names are
/// all lower case, so this is the tag-name equivalence every dispatch uses).
pub open spec fn lower_eq(s: Seq<char>, t: Seq<char>) -> bool {
    s.len() == t.len() && forall|i: int| 0 <= i < s.len() ==> lower_code(s[i]) == t[i] as u32
}

/// An element node whose case-folded tag name is `name`.
pub open spec fn elem_with_tag(n: NodeModel, name: Seq<char>) -> bool {
    n is Element && lower_eq(node_tag(n), name)
}

fn space_char(c: char) -> (r: bool)
    ensures
        r == is_space_char(c),
{
    let u = c as u32;
    u == 0x20 || (0x9 <= u && u <= 0xd) || u == 0x85 || u == 0xa0 || u == 0x1680 || (0x2000 <= u
        && u <= 0x200a) || u == 0x2028 || u == 0x2029 || u == 0x202f || u == 0x205f || u == 0x3000
}

/// Whether the string holds nothing but whitespace, so that `trim` would
/// leave it empty.
pub fn str_is_blank(s: &str) -> (r: bool)
    ensures
        r == whitespace_only(s@),
{
    let n = s.unicode_len();
    let mut i: usize = 0;
    while i < n
        invariant
            n == s@.len(),
            i <= n,
            forall|j: int| 0 <= j < i ==> is_space_char(s@[j]),
        decreases n - i,
    {
        if !space_char(s.get_char(i)) {
            return false;
        }
        i += 1;
    }
    true
}

/// Character-for-character string equality.
pub fn str_eq(a: &str, b: &str) -> (r: bool)
    ensures
        r == (a@ == b@),
{
    let an = a.unicode_len();
    let bn = b.unicode_len();
    if an != bn {
        return false;
    }
    let mut i: usize = 0;
    while i < an
        invariant
            an == a@.len(),
            an == b@.len(),
            i <= an,
            forall|j: int| 0 <= j < i ==> a@[j] == b@[j],
        decreases an - i,
    {
        if a.get_char(i) != b.get_char(i) {
            return false;
        }
        i += 1;
    }
    proof {
        assert(a@ =~= b@);
    }
    true
}

/// Whether `a`, case-folded, spells exactly `b`.
pub fn str_lower_eq(a: &str, b: &str) -> (r: bool)
    ensures
        r == lower_eq(a@, b@),
{
    let an = a.unicode_len();
    let bn = b.unicode_len();
    if an != bn {
        return false;
    }
    let mut i: usize = 0;
    while i < an
        invariant
            an == a@.len(),
            an == b@.len(),
            i <= an,
            forall|j: int| 0 <= j < i ==> lower_code(a@[j]) == b@[j] as u32,
        decreases an - i,
    {
        let u = a.get_char(i) as u32;
        let lu = if 0x41 <= u && u <= 0x5a {
            u + 0x20
        } else {
            u
        };
        if lu != b.get_char(i) as u32 {
            return false;
        }
        i += 1;
    }
    true
}

impl XmlNode {
    /// Whether the sibling walkers would stop on this node rather than pass
    /// it over.
    pub fn is_significant_node(&self) -> (r: bool)
        ensures
            r == is_significant(self@),
    {
        match self {
            XmlNode::Element { .. } => true,
            XmlNode::Text { text } => !str_is_blank(text.as_str()),
            XmlNode::Comment => false,
        }
    }

    /// The value of the named attribute, if present: `optional` attribute
    /// access, which never fails.
    pub fn opt_attr(&self, name: &str) -> (r: Option<String>)
        ensures
            r.deep_view() == attr_value(node_attrs(self@), name@),
    {
        match self {
            XmlNode::Element { attrs, .. } => attr_search(attrs, name),
            XmlNode::Text { .. } => None,
            XmlNode::Comment => None,
        }
    }
}

fn attr_search(attrs: &Vec<(String, String)>, name: &str) -> (r: Option<String>)
    ensures
        r.deep_view() == attr_value(attrs.deep_view(), name@),
{
    let ghost am = attrs.deep_view();
    let n = attrs.len();
    proof {
        assert(am.skip(0) =~= am);
    }
    let mut i: usize = 0;
    while i < n
        invariant
            n == attrs@.len(),
            am == attrs.deep_view(),
            am.len() == n,
            i <= n,
            attr_value(am, name@) == attr_value(am.skip(i as int), name@),
        decreases n - i,
    {
        proof {
            assert(am.skip(i as int)[0] == am[i as int]);
        }
        if str_eq(attrs[i].0.as_str(), name) {
            let v = attrs[i].1.clone();
            proof {
                assert(attr_value(am.skip(i as int), name@) == Some(am[i as int].1));
            }
            return Some(v);
        }
        proof {
            assert(am.skip(i as int).drop_first() =~= am.skip(i as int + 1));
        }
        i += 1;
    }
    proof {
        assert(am.skip(n as int) =~= Seq::<(Seq<char>, Seq<char>)>::empty());
    }
    None
}

} // verus!
