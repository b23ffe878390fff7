//! The compute parts of the header generators: language selection, the
//! flattened invocation-label list, system-call numbering, and the
//! assembler-style name format.

use vstd::prelude::*;

use crate::grammar::ApiElementModel;
use crate::grammar::MethodModel;
use crate::invocations::Api;
use crate::invocations::ApiElement;
use vstd::string::StrSliceExecFns;
use vstd::string::StringExecFns;

verus! {

/// Output language of a generator run.
#[derive(Debug, Clone, Copy)]
pub enum Language {
    C,
    Rust,
}

/// What `str::to_lowercase` returns: a function of the characters alone.
pub uninterp spec fn lower_of(s: Seq<char>) -> Seq<char>;

/// Relies on `str::to_lowercase`: the result depends on the characters
/// alone, and an empty string stays empty.
#[verifier::external_body]
fn to_lowercase(s: &str) -> (r: String)
    ensures
        r@ == lower_of(s@),
        s@.len() == 0 ==> r@.len() == 0,
{
    s.to_lowercase()
}

/// Selects the output language: the argument, case-folded, must spell
/// `rust` or `c`; anything else is rejected with a message naming the
/// folded argument.
pub fn language_arg(s: &str) -> (r: Result<Language, String>)
    ensures
        lower_of(s@) == "rust"@ ==> (r matches Ok(l) && l is Rust),
        lower_of(s@) != "rust"@ && lower_of(s@) == "c"@ ==> (r matches Ok(l) && l is C),
        lower_of(s@) != "rust"@ && lower_of(s@) != "c"@ ==> (r matches Err(m) && m@
            == "Unrecognized language '"@ + lower_of(s@) + "'"@),
{
    let low = to_lowercase(s);
    if crate::xml::str_eq(low.as_str(), "rust") {
        Ok(Language::Rust)
    } else if crate::xml::str_eq(low.as_str(), "c") {
        Ok(Language::C)
    } else {
        let mut m = String::new();
        m.append("Unrecognized language '");
        m.append(low.as_str());
        m.append("'");
        proof {
            assert(m@ =~= "Unrecognized language '"@ + lower_of(s@) + "'"@);
        }
        Err(m)
    }
}

/// The labels one root element contributes: the (id, condition) pair of
/// each method of an interface, in order; a struct contributes none.
pub open spec fn element_labels(e: ApiElementModel) -> Seq<(Seq<char>, Option<Seq<char>>)> {
    match e {
        ApiElementModel::Interface { methods, .. } => methods.map_values(
            |m: MethodModel| (m.id, m.condition),
        ),
        ApiElementModel::StructElem { .. } => Seq::empty(),
    }
}

/// The flattened invocation list of the root children from position `i`
/// on, in document order.
pub open spec fn api_labels_from(children: Seq<ApiElementModel>, i: int) -> Seq<
    (Seq<char>, Option<Seq<char>>),
>
    decreases children.len() - i,
{
    if i < 0 || i >= children.len() {
        Seq::empty()
    } else {
        element_labels(children[i]) + api_labels_from(children, i + 1)
    }
}

/// Flattens every interface's methods into the (label, condition) list the
/// template context consumes, preserving the tree's interface and method
/// order exactly.
#[verifier::loop_isolation(false)]
pub fn invocation_labels(api: &Api) -> (r: Vec<(String, Option<String>)>)
    ensures
        r.deep_view() == api_labels_from(api.deep_view().children, 0),
{
    let ghost ac = api.deep_view().children;
    let mut out: Vec<(String, Option<String>)> = Vec::new();
    proof {
        assert(out.deep_view() =~= Seq::<(Seq<char>, Option<Seq<char>>)>::empty());
    }
    let n = api.children.len();
    let mut i: usize = 0;
    while i < n
        invariant
            n == api.children@.len(),
            ac == api.deep_view().children,
            ac.len() == n,
            i <= n,
            api_labels_from(ac, 0) == out.deep_view() + api_labels_from(ac, i as int),
        decreases n - i,
    {
        let ghost pre = out.deep_view();
        match &api.children[i] {
            ApiElement::Interface { methods, .. } => {
                let ghost lbl = (|m: MethodModel| (m.id, m.condition));
                let ghost mm = (match ac[i as int] {
                    ApiElementModel::Interface { methods: ms, .. } => ms,
                    _ => Seq::empty(),
                });
                let m_n = methods.len();
                let mut k: usize = 0;
                while k < m_n
                    invariant
                        m_n == methods@.len(),
                        mm == methods.deep_view(),
                        k <= m_n,
                        out.deep_view() == pre + mm.map_values(lbl).take(k as int),
                    decreases m_n - k,
                {
                    let ghost mid = out.deep_view();
                    let id = methods[k].id.clone();
                    let condition = match &methods[k].condition {
                        Some(c) => Some(c.clone()),
                        None => None,
                    };
                    out.push((id, condition));
                    proof {
                        assert(out.deep_view() =~= mid.push(
                            (methods@[k as int].id@, methods@[k as int].condition.deep_view()),
                        ));
                        assert(mm[k as int] == methods@[k as int].deep_view());
                        assert(lbl(mm[k as int]) == (
                            methods@[k as int].id@,
                            methods@[k as int].condition.deep_view(),
                        ));
                        assert(mm.map_values(lbl).take(k as int + 1) =~= mm.map_values(lbl).take(
                            k as int,
                        ).push(lbl(mm[k as int])));
                    }
                    k += 1;
                }
                proof {
                    assert(mm.map_values(lbl).take(m_n as int) =~= mm.map_values(lbl));
                    assert(element_labels(ac[i as int]) == mm.map_values(lbl));
                    assert((pre + element_labels(ac[i as int])) + api_labels_from(ac, i as int + 1)
                        =~= pre + (element_labels(ac[i as int]) + api_labels_from(
                        ac,
                        i as int + 1,
                    )));
                }
            },
            ApiElement::StructElem { .. } => {
                proof {
                    assert(element_labels(ac[i as int]) =~= Seq::<
                        (Seq<char>, Option<Seq<char>>),
                    >::empty());
                    assert(pre + (element_labels(ac[i as int]) + api_labels_from(
                        ac,
                        i as int + 1,
                    )) =~= pre + api_labels_from(ac, i as int + 1));
                }
            },
        }
        i += 1;
    }
    proof {
        assert(out.deep_view() + Seq::<(Seq<char>, Option<Seq<char>>)>::empty()
            =~= out.deep_view());
    }
    out
}

/// The number of system-call names in the first `i` configuration blocks.
pub open spec fn total_names(api: Seq<(Option<Seq<char>>, Seq<Seq<char>>)>, i: int) -> int
    decreases i,
{
    if i <= 0 {
        0
    } else {
        total_names(api, i - 1) + (if i - 1 < api.len() {
            api[i - 1].1.len() as int
        } else {
            0
        })
    }
}

pub proof fn lemma_total_names_mono(api: Seq<(Option<Seq<char>>, Seq<Seq<char>>)>, j: int, l: int)
    requires
        0 <= j <= l,
    ensures
        total_names(api, j) <= total_names(api, l),
    decreases l - j,
{
    if j < l {
        lemma_total_names_mono(api, j + 1, l);
    }
}

/// One output row is correct for one configuration block when it carries
/// the block's condition (empty for none) and its names paired with the
/// consecutive negative numbers starting at `-start`.
pub open spec fn numbered_row_ok(
    row: (Seq<char>, Seq<(Seq<char>, isize)>),
    cfg: (Option<Seq<char>>, Seq<Seq<char>>),
    start: int,
) -> bool {
    &&& row.0 == (match cfg.0 {
        Some(c) => c,
        None => Seq::<char>::empty(),
    })
    &&& row.1.len() == cfg.1.len()
    &&& forall|k: int|
        0 <= k < cfg.1.len() ==> #[trigger] row.1[k] == (cfg.1[k], (-(start + k)) as isize)
}

/// Numbers every configuration block's system calls with consecutive
/// negative values, `-1` downwards, continuing across blocks; each block
/// keeps its condition, an absent one becoming the empty string.
#[verifier::loop_isolation(false)]
pub fn map_api_neg_range(api: &Vec<(Option<String>, Vec<String>)>) -> (r: Vec<
    (String, Vec<(String, isize)>),
>)
    requires
        total_names(api.deep_view(), api@.len() as int) < isize::MAX as int,
    ensures
        r.deep_view().len() == api@.len(),
        forall|i: int|
            0 <= i < api@.len() ==> #[trigger] numbered_row_ok(
                r.deep_view()[i],
                api.deep_view()[i],
                1 + total_names(api.deep_view(), i),
            ),
{
    let ghost am = api.deep_view();
    let mut out: Vec<(String, Vec<(String, isize)>)> = Vec::new();
    let mut start: isize = 1;
    let n = api.len();
    let mut i: usize = 0;
    while i < n
        invariant
            n == api@.len(),
            am == api.deep_view(),
            am.len() == n,
            i <= n,
            start as int == 1 + total_names(am, i as int),
            out.deep_view().len() == i,
            forall|q: int|
                0 <= q < i ==> #[trigger] numbered_row_ok(
                    out.deep_view()[q],
                    am[q],
                    1 + total_names(am, q),
                ),
        decreases n - i,
    {
        proof {
            lemma_total_names_mono(am, i as int + 1, n as int);
            lemma_total_names_mono(am, 0, i as int);
        }
        let cond = match &api[i].0 {
            Some(c) => c.clone(),
            None => String::new(),
        };
        let names = &api[i].1;
        let m_n = names.len();
        let mut row: Vec<(String, isize)> = Vec::new();
        let mut k: usize = 0;
        while k < m_n
            invariant
                m_n == names@.len(),
                names@ == api@[i as int].1@,
                k <= m_n,
                row.deep_view().len() == k,
                forall|q: int|
                    0 <= q < k ==> #[trigger] row.deep_view()[q] == (
                        am[i as int].1[q],
                        (-(1 + total_names(am, i as int) + q)) as isize,
                    ),
            decreases m_n - k,
        {
            let ghost pre = row.deep_view();
            let name = names[k].clone();
            proof {
                assert(total_names(am, i as int) + m_n == total_names(am, i as int + 1));
                assert(1 <= start as int);
                assert(start as int + k <= isize::MAX as int);
                assert(k as int <= isize::MAX as int);
            }
            let num: isize = -(start + (k as isize));
            row.push((name, num));
            proof {
                assert(row.deep_view() =~= pre.push((names@[k as int]@, num)));
                assert(am[i as int].1[k as int] == names@[k as int]@);
            }
            k += 1;
        }
        let ghost cv = cond@;
        let ghost rv = row.deep_view();
        let ghost pre_out = out.deep_view();
        out.push((cond, row));
        proof {
            assert(out.deep_view() =~= pre_out.push((cv, rv)));
            assert(numbered_row_ok((cv, rv), am[i as int], 1 + total_names(am, i as int)));
            assert(total_names(am, i as int) + m_n == total_names(am, i as int + 1));
            lemma_total_names_mono(am, 0, i as int);
            assert(m_n as int <= isize::MAX as int);
        }
        let len_i: isize = m_n as isize;
        start = start + len_i;
        proof {
            assert(total_names(am, i as int) + m_n == total_names(am, i as int + 1));
        }
        i += 1;
    }
    out
}

/// Whether `c` is an ASCII capital letter, the chunking's split signal.
pub open spec fn is_upper(c: char) -> bool {
    0x41 <= c as int && c as int <= 0x5a
}

fn exec_is_upper(c: char) -> (r: bool)
    ensures
        r == is_upper(c),
{
    let u = c as u32;
    0x41 <= u && u <= 0x5a
}

/// End of the run of non-capital characters starting at `i`.
pub open spec fn run_end(s: Seq<char>, i: int) -> int
    decreases s.len() - i,
{
    if 0 <= i < s.len() && !is_upper(s[i]) {
        run_end(s, i + 1)
    } else {
        i
    }
}

pub proof fn lemma_run_end_bounds(s: Seq<char>, i: int)
    requires
        0 <= i <= s.len(),
    ensures
        i <= run_end(s, i) <= s.len(),
    decreases s.len() - i,
{
    if i < s.len() && !is_upper(s[i]) {
        lemma_run_end_bounds(s, i + 1);
    }
}

/// The name split into chunks: each chunk begins with one capital letter,
/// takes a second capital if one follows immediately, then runs to the
/// next capital; characters before the first capital belong to no chunk.
pub open spec fn chunks_from(s: Seq<char>, i: int) -> Seq<Seq<char>>
    decreases s.len() - i,
    via chunks_from_decreases
{
    if i < 0 || i >= s.len() {
        Seq::empty()
    } else if !is_upper(s[i]) {
        chunks_from(s, i + 1)
    } else {
        let head = if i + 1 < s.len() && is_upper(s[i + 1]) {
            i + 2
        } else {
            i + 1
        };
        let e = run_end(s, head);
        seq![s.subrange(i, e)] + chunks_from(s, e)
    }
}

#[via_fn]
proof fn chunks_from_decreases(s: Seq<char>, i: int) {
    if 0 <= i < s.len() && is_upper(s[i]) {
        let head = if i + 1 < s.len() && is_upper(s[i + 1]) {
            i + 2
        } else {
            i + 1
        };
        lemma_run_end_bounds(s, head);
    }
}

/// What `str::to_uppercase` returns: a function of the characters alone.
pub uninterp spec fn upper_of(s: Seq<char>) -> Seq<char>;

/// Relies on `str::to_uppercase`: the result depends on the characters
/// alone, and an empty string stays empty.
#[verifier::external_body]
fn to_uppercase(s: &str) -> (r: String)
    ensures
        r@ == upper_of(s@),
        s@.len() == 0 ==> r@.len() == 0,
{
    s.to_uppercase()
}

/// The parts joined with single underscores.
pub open spec fn join_underscore(parts: Seq<Seq<char>>) -> Seq<char>
    decreases parts.len(),
{
    if parts.len() == 0 {
        Seq::empty()
    } else if parts.len() == 1 {
        parts[0]
    } else {
        parts[0] + seq!['_'] + join_underscore(parts.drop_first())
    }
}

pub proof fn lemma_join_underscore_push(parts: Seq<Seq<char>>, x: Seq<char>)
    ensures
        join_underscore(parts.push(x)) == if parts.len() == 0 {
            x
        } else {
            join_underscore(parts) + seq!['_'] + x
        },
    decreases parts.len(),
{
    if parts.len() == 0 {
        assert(parts.push(x).len() == 1);
        assert(parts.push(x)[0] == x);
    } else {
        lemma_join_underscore_push(parts.drop_first(), x);
        assert(parts.push(x).drop_first() =~= parts.drop_first().push(x));
        assert(parts.push(x)[0] == parts[0]);
        if parts.len() == 1 {
            assert(parts.drop_first().len() == 0);
            assert(join_underscore(parts) == parts[0]);
        } else {
            assert((parts[0] + seq!['_'] + join_underscore(parts.drop_first())) + seq!['_'] + x
                =~= parts[0] + seq!['_'] + (join_underscore(parts.drop_first()) + seq!['_'] + x));
        }
    }
}

/// The assembler form of a name: its chunks, each uppercased, joined with
/// underscores.
pub open spec fn assembler_of(s: Seq<char>) -> Seq<char> {
    join_underscore(chunks_from(s, 0).map_values(|c: Seq<char>| upper_of(c)))
}

/// Formats a system-call name for assembler output: the name is split at
/// capital letters into chunks, each chunk is uppercased, and the chunks
/// are joined with underscores.
#[verifier::loop_isolation(false)]
pub fn convert_to_assembler_format(s: &str) -> (r: String)
    ensures
        r@ == assembler_of(s@),
{
    let ghost up = (|c: Seq<char>| upper_of(c));
    let n = s.unicode_len();
    let mut out = String::new();
    let mut first: bool = true;
    let ghost mut done: Seq<Seq<char>> = Seq::empty();
    proof {
        assert(Seq::<Seq<char>>::empty() + chunks_from(s@, 0) =~= chunks_from(s@, 0));
        assert(done.map_values(up).len() == 0);
        reveal_strlit("_");
        assert("_"@ =~= seq!['_']);
    }
    let mut i: usize = 0;
    while i < n
        invariant
            n == s@.len(),
            i <= n,
            chunks_from(s@, 0) == done + chunks_from(s@, i as int),
            out@ == join_underscore(done.map_values(up)),
            first == (done.len() == 0),
        decreases n - i,
    {
        let c = s.get_char(i);
        if !exec_is_upper(c) {
            i += 1;
        } else {
            let mut head: usize = i + 1;
            if head < n && exec_is_upper(s.get_char(head)) {
                head = head + 1;
            }
            let mut e: usize = head;
            while e < n && !exec_is_upper(s.get_char(e))
                invariant
                    head <= e <= n,
                    run_end(s@, head as int) == run_end(s@, e as int),
                decreases n - e,
            {
                e += 1;
            }
            proof {
                assert(run_end(s@, e as int) == e as int);
            }
            let chunk = s.substring_char(i, e);
            let u = to_uppercase(chunk);
            if first {
                out.append(u.as_str());
                first = false;
            } else {
                out.append("_");
                out.append(u.as_str());
            }
            proof {
                let piece = s@.subrange(i as int, e as int);
                assert(chunks_from(s@, i as int) == seq![piece] + chunks_from(s@, e as int));
                lemma_join_underscore_push(done.map_values(up), up(piece));
                assert(done.push(piece).map_values(up) =~= done.map_values(up).push(up(piece)));
                assert(done.push(piece) + chunks_from(s@, e as int) =~= done + (seq![piece]
                    + chunks_from(s@, e as int)));
                done = done.push(piece);
            }
            i = e;
        }
    }
    proof {
        assert(done + Seq::<Seq<char>>::empty() =~= done);
    }
    out
}

} // verus!
