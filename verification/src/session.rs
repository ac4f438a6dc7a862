//! The workflow executor, as a fetch-step session: the caller asks which
//! URL to fetch next, performs the fetch however it likes, and hands the
//! body back; the session walks the current workflow's node tree over the
//! fetched document, accumulates captures into the variable store, and
//! moves on to the next URL or the next workflow. The engine itself never
//! touches the network, so the whole crawl is a function of the template,
//! the caller parameters and the fetched bodies.

use vstd::prelude::*;

use crate::dom::Document;
use crate::errors::{CrawlerErr, ErrView};
use crate::script::ScriptMode;
use crate::interp::{elems_of, init_pairs, init_pairs_at, pipeline_rel, strings_of};
use crate::template::{value_fields, Template, WorkflowNode, WorkflowRoot};
use crate::vars::{store_append, store_confined, store_extends, VarStore};

verus! {

/// The variable store after the caller's parameters are written over the
/// environment: each caller pair becomes a one-element binding, the caller
/// winning on a shared name (later caller pairs win among themselves).
pub open spec fn caller_merge(
    m: Map<Seq<char>, Seq<Seq<char>>>,
    params: Seq<(String, String)>,
) -> Map<Seq<char>, Seq<Seq<char>>>
    decreases params.len(),
{
    if params.len() == 0 {
        m
    } else {
        caller_merge(m, params.drop_last()).insert(
            params.last().0@,
            seq![params.last().1@],
        )
    }
}

/// The first position at or after `i` holding a closing brace.
pub open spec fn scan_brace_spec(s: Seq<char>, i: int) -> int
    decreases s.len() - i,
{
    if 0 <= i < s.len() && s[i] != '}' {
        scan_brace_spec(s, i + 1)
    } else {
        i
    }
}

/// A result with a prefix prepended to its success text.
pub open spec fn res_prepend_text(pre: Seq<char>, r: Result<Seq<char>, ErrView>) -> Result<
    Seq<char>,
    ErrView,
> {
    match r {
        Ok(s) => Ok(pre + s),
        Err(e) => Err(e),
    }
}

/// The entrypoint pattern from position `i` with every `${name}`
/// placeholder replaced by the single value of `name`. A placeholder whose
/// variable is absent, empty, or multi-valued fails the whole
/// substitution; an unterminated `${` is kept literally.
pub open spec fn entry_spec_at(s: Seq<char>, i: int, m: Map<Seq<char>, Seq<Seq<char>>>) -> Result<
    Seq<char>,
    ErrView,
>
    decreases s.len() - i,
{
    if i < 0 || i >= s.len() {
        Ok(Seq::empty())
    } else if i + 1 < s.len() && s[i] == '$' && s[i + 1] == '{' {
        let e = scan_brace_spec(s, i + 2);
        if !(i + 2 <= e < s.len()) {
            Ok(s.subrange(i, s.len() as int))
        } else {
            let name = s.subrange(i + 2, e);
            if !m.contains_key(name) {
                Err(ErrView::DynNotYetInitialised(name))
            } else if m[name].len() == 0 {
                Err(ErrView::DynNoValidData(name))
            } else if m[name].len() > 1 {
                Err(ErrView::MultipleEntrypointParameterError(name))
            } else {
                res_prepend_text(m[name][0], entry_spec_at(s, e + 1, m))
            }
        }
    } else {
        res_prepend_text(seq![s[i]], entry_spec_at(s, i + 1, m))
    }
}

/// The whole entrypoint URL under a variable store.
pub open spec fn entry_spec(s: Seq<char>, m: Map<Seq<char>, Seq<Seq<char>>>) -> Result<
    Seq<char>,
    ErrView,
> {
    entry_spec_at(s, 0, m)
}

fn scan_brace(s: &Vec<char>, i: usize) -> (r: usize)
    requires
        i <= s@.len(),
    ensures
        r as int == scan_brace_spec(s@, i as int),
        i <= r <= s@.len(),
{
    let mut k = i;
    while k < s.len() && s[k] != '}'
        invariant
            i <= k <= s@.len(),
            scan_brace_spec(s@, i as int) == scan_brace_spec(s@, k as int),
        decreases s@.len() - k,
    {
        k = k + 1;
    }
    k
}

impl Template {
    /// The entrypoint URL: every `${name}` placeholder substituted by the
    /// single value of `name` in `vars`. A referenced variable that is
    /// absent, empty, or holds more than one value is rejected, so a crawl
    /// never starts from an ambiguous URL.
    pub fn build_entrypoint_url(&self, vars: &VarStore) -> (r: Result<String, CrawlerErr>)
        requires
            vars.wf(),
        ensures
            match r {
                Ok(u) => entry_spec(self.entrypoint@, vars@) == Ok::<Seq<char>, ErrView>(u@),
                Err(e) => entry_spec(self.entrypoint@, vars@) == Err::<Seq<char>, ErrView>(e@),
            },
    {
        let s = crate::text::str_chars(self.entrypoint.as_str());
        let ghost sv = self.entrypoint@;
        let ghost m = vars@;
        let mut out: Vec<char> = Vec::new();
        let mut i: usize = 0;
        proof {
            assert(Seq::<char>::empty() + sv =~= sv);
            if entry_spec_at(sv, 0, m) is Ok {
                assert(Seq::<char>::empty() + entry_spec_at(sv, 0, m)->Ok_0 =~= entry_spec_at(
                    sv,
                    0,
                    m,
                )->Ok_0);
            }
        }
        while i < s.len()
            invariant
                i <= s@.len(),
                s@ == sv,
                sv == self.entrypoint@,
                m == vars@,
                vars.wf(),
                entry_spec_at(sv, 0, m) == res_prepend_text(out@, entry_spec_at(sv, i as int, m)),
            decreases s@.len() - i,
        {
            if s[i] == '$' && i + 1 < s.len() && s[i + 1] == '{' {
                let e = scan_brace(&s, i + 2);
                if e >= s.len() {
                    let ghost pre = out@;
                    crate::parser::push_str_chars_vec(&mut out, &s, i, s.len());
                    proof {
                        assert(out@ =~= pre + sv.subrange(i as int, sv.len() as int));
                        assert(entry_spec_at(sv, i as int, m) == Ok::<Seq<char>, ErrView>(
                            sv.subrange(i as int, sv.len() as int),
                        ));
                        assert(entry_spec_at(sv, sv.len() as int, m) == Ok::<Seq<char>, ErrView>(
                            Seq::<char>::empty(),
                        ));
                        assert(pre + sv.subrange(i as int, sv.len() as int) =~= out@ + Seq::<
                            char,
                        >::empty());
                    }
                    i = s.len();
                } else {
                    let name = crate::parser::sub_string(&s, i + 2, e);
                    proof {
                        assert(name@ == sv.subrange(i + 2, e as int));
                    }
                    match vars.get(name.as_str()) {
                        None => {
                            proof {
                                assert(entry_spec_at(sv, i as int, m) == Err::<Seq<char>, ErrView>(
                                    ErrView::DynNotYetInitialised(name@),
                                ));
                            }
                            return Err(CrawlerErr::DynNotYetInitialised(name));
                        },
                        Some(values) => {
                            proof {
                                assert(values.deep_view().len() == values@.len());
                            }
                            if values.len() == 0 {
                                proof {
                                    assert(entry_spec_at(sv, i as int, m) == Err::<
                                        Seq<char>,
                                        ErrView,
                                    >(ErrView::DynNoValidData(name@)));
                                }
                                return Err(CrawlerErr::DynNoValidData(name));
                            } else if values.len() > 1 {
                                proof {
                                    assert(entry_spec_at(sv, i as int, m) == Err::<
                                        Seq<char>,
                                        ErrView,
                                    >(ErrView::MultipleEntrypointParameterError(name@)));
                                }
                                return Err(CrawlerErr::MultipleEntrypointParameterError(name));
                            }
                            proof {
                                assert(values.deep_view()[0] == values@[0]@);
                            }
                            let ghost pre = out@;
                            crate::parser::push_str_chars(&mut out, values[0].as_str());
                            proof {
                                let tail = entry_spec_at(sv, e + 1, m);
                                assert(entry_spec_at(sv, i as int, m) == res_prepend_text(
                                    m[name@][0],
                                    tail,
                                ));
                                if tail is Ok {
                                    assert(pre + (m[name@][0] + tail->Ok_0) =~= out@ + tail->Ok_0);
                                }
                            }
                            i = e + 1;
                        },
                    }
                }
            } else {
                let ghost pre = out@;
                out.push(s[i]);
                proof {
                    let tail = entry_spec_at(sv, i + 1, m);
                    assert(entry_spec_at(sv, i as int, m) == res_prepend_text(seq![sv[i as int]], tail));
                    if tail is Ok {
                        assert(pre + (seq![sv[i as int]] + tail->Ok_0) =~= out@ + tail->Ok_0);
                    }
                }
                i = i + 1;
            }
        }
        proof {
            assert(entry_spec_at(sv, i as int, m) == Ok::<Seq<char>, ErrView>(
                Seq::<char>::empty(),
            ));
            assert(out@ + Seq::<char>::empty() =~= out@);
        }
        Ok(crate::text::chars_to_string(&out))
    }
}

/// A workflow URL variable that supplies nothing: absent or empty.
pub open spec fn skipped_key(m: Map<Seq<char>, Seq<Seq<char>>>, key: Seq<char>) -> bool {
    !m.contains_key(key) || m[key].len() == 0
}

/// How one node, walked over a document from the given root elements,
/// relates the store before to the store after, on success. A value node
/// runs its script and appends exactly the resulting string channels under
/// its own name; an element node runs its script and, when anything
/// matched, walks its children over the matched elements; a script's
/// selector answers are as [`pipeline_rel`] fixes them.
pub open spec fn node_step_rel(
    head: WorkflowNode,
    dv: Seq<crate::dom::ElemView>,
    roots: Seq<int>,
    m0: Map<Seq<char>, Seq<Seq<char>>>,
    m1: Map<Seq<char>, Seq<Seq<char>>>,
) -> bool
    decreases head,
{
    if head.script.rule == ScriptMode::Value {
        exists|ps: Seq<crate::interp::PairV>|
            {
                &&& #[trigger] pipeline_rel(
                    head.script.commands.deep_view(),
                    dv,
                    m0,
                    init_pairs_at(roots),
                    Ok(ps),
                )
                &&& m1 == store_append(m0, head.name@, strings_of(ps))
            }
    } else if head.script.rule == ScriptMode::Element {
        exists|ps: Seq<crate::interp::PairV>|
            {
                &&& #[trigger] pipeline_rel(
                    head.script.commands.deep_view(),
                    dv,
                    m0,
                    init_pairs_at(roots),
                    Ok(ps),
                )
                &&& (if ps.len() == 0 {
                    m1 == m0
                } else {
                    walk_rel(head.children@, dv, elems_of(ps), m0, m1)
                })
            }
    } else {
        m1 == m0
    }
}

/// Marks the store a walk passes through between two nodes; the walk
/// relation quantifies over it, and this marker serves as the trigger.
pub open spec fn chains_through(m: Map<Seq<char>, Seq<Seq<char>>>) -> bool {
    true
}

/// How walking a node list, in order, over one document relates the store
/// before to the store after, on success: the nodes' steps chained through
/// intermediate stores.
pub open spec fn walk_rel(
    nodes: Seq<WorkflowNode>,
    dv: Seq<crate::dom::ElemView>,
    roots: Seq<int>,
    m0: Map<Seq<char>, Seq<Seq<char>>>,
    m1: Map<Seq<char>, Seq<Seq<char>>>,
) -> bool
    decreases nodes,
{
    if nodes.len() == 0 {
        m0 == m1
    } else {
        exists|mid: Map<Seq<char>, Seq<Seq<char>>>|
            {
                &&& #[trigger] chains_through(mid)
                &&& walk_rel(nodes.drop_last(), dv, roots, m0, mid)
                &&& node_step_rel(nodes.last(), dv, roots, mid, m1)
            }
    }
}


/// Walk one node over a document: a value node appends exactly its
/// script's captures under its own name; an element node refines the
/// element set and walks its children over it when anything matched. The
/// store is only ever extended.
pub fn process_node(
    node: &WorkflowNode,
    doc: &Document,
    roots: &Vec<usize>,
    vars: &mut VarStore,
) -> (r: Result<(), CrawlerErr>)
    requires
        node.wf(),
        doc.wf(),
        old(vars).wf(),
        forall|k: int| 0 <= k < roots@.len() ==> (#[trigger] roots@[k]) < doc@.len(),
    ensures
        final(vars).wf(),
        store_extends(old(vars)@, final(vars)@),
        crate::vars::store_confined(old(vars)@, final(vars)@, value_fields(seq![*node])),
        r is Ok ==> node_step_rel(
            *node,
            doc@,
            roots@.map_values(|u: usize| u as int),
            old(vars)@,
            final(vars)@,
        ),
    decreases node,
{
    let ghost roots_at = roots@.map_values(|u: usize| u as int);
    let ghost own_names = value_fields(seq![*node]);
    proof {
        crate::vars::lemma_store_extends_refl(vars@);
        assert(init_pairs(roots@) =~= init_pairs_at(roots_at));
    }
    match node.script.rule {
        ScriptMode::Element => {
            let pairs = node.script.get_value_with_element(doc, roots, vars)?;
            let ghost ps = crate::interp::pairs_view(pairs@);
            proof {
                assert(pipeline_rel(
                    node.script.commands.deep_view(),
                    doc@,
                    old(vars)@,
                    init_pairs_at(roots_at),
                    Ok(ps),
                ));
            }
            let elems = crate::interp::elems_from_pairs(&pairs);
            proof {
                assert(elems@.map_values(|u: usize| u as int) == elems_of(ps));
                assert(elems@.len() == ps.len());
                assert(crate::interp::pairs_bounded(ps, doc@.len() as int));
                assert forall|k: int| 0 <= k < elems@.len() implies (#[trigger] elems@[k])
                    < doc@.len() by {
                    assert(elems@[k] as int == ps[k].1);
                }
            }
            if elems.len() == 0 {
                proof {
                    assert(ps.len() == 0);
                    assert(node_step_rel(*node, doc@, roots_at, old(vars)@, vars@));
                }
                return Ok(());
            }
            let ghost m_entry = vars@;
            let ghost child_roots = elems_of(ps);
            proof {
                assert(node.children@.take(0) =~= Seq::<WorkflowNode>::empty());
                assert(walk_rel(node.children@.take(0), doc@, child_roots, m_entry, vars@));
            }
            let mut j: usize = 0;
            while j < node.children.len()
                invariant
                    j <= node.children@.len(),
                    node.wf(),
                    doc.wf(),
                    vars.wf(),
                    m_entry == old(vars)@,
                    child_roots == elems_of(ps),
                    child_roots == elems@.map_values(|u: usize| u as int),
                    forall|k: int| 0 <= k < elems@.len() ==> (#[trigger] elems@[k]) < doc@.len(),
                    store_extends(old(vars)@, vars@),
                    own_names == value_fields(seq![*node]),
                    crate::vars::store_confined(old(vars)@, vars@, own_names),
                    walk_rel(node.children@.take(j as int), doc@, child_roots, m_entry, vars@),
                decreases node.children@.len() - j,
            {
                proof {
                    assert(node.children@[j as int].wf());
                }
                let ghost before = vars@;
                let step = process_node(&node.children[j], doc, &elems, vars);
                proof {
                    crate::vars::lemma_store_extends_trans(old(vars)@, before, vars@);
                    assert forall|x: Seq<char>|
                        value_fields(seq![node.children@[j as int]]).contains(x)
                            implies #[trigger] own_names.contains(x) by {
                        crate::template::lemma_value_fields_elem(node.children@, j as int, x);
                        crate::template::lemma_value_fields_children(*node, x);
                    }
                    crate::vars::lemma_store_confined_weaken(
                        before,
                        vars@,
                        value_fields(seq![node.children@[j as int]]),
                        own_names,
                    );
                    crate::vars::lemma_store_confined_trans(old(vars)@, before, vars@, own_names);
                }
                match step {
                    Ok(()) => {},
                    Err(e) => {
                        return Err(e);
                    },
                }
                proof {
                    assert(node_step_rel(
                        node.children@[j as int],
                        doc@,
                        child_roots,
                        before,
                        vars@,
                    ));
                    assert(node.children@.take(j + 1).drop_last() =~= node.children@.take(
                        j as int,
                    ));
                    assert(node.children@.take(j + 1).last() == node.children@[j as int]);
                    assert(walk_rel(
                        node.children@.take(j + 1).drop_last(),
                        doc@,
                        child_roots,
                        m_entry,
                        before,
                    ));
                    assert(node_step_rel(
                        node.children@.take(j + 1).last(),
                        doc@,
                        child_roots,
                        before,
                        vars@,
                    ));
                    assert(chains_through(before));
                    assert(walk_rel(node.children@.take(j + 1), doc@, child_roots, m_entry, vars@));
                }
                j = j + 1;
            }
            proof {
                assert(node.children@.take(node.children@.len() as int) =~= node.children@);
                assert(walk_rel(node.children@, doc@, elems_of(ps), old(vars)@, vars@));
                assert(ps.len() > 0);
                assert(node_step_rel(*node, doc@, roots_at, old(vars)@, vars@));
            }
            Ok(())
        },
        ScriptMode::Value => {
            let pairs = node.script.get_value_with_element(doc, roots, vars)?;
            let ghost ps = crate::interp::pairs_view(pairs@);
            proof {
                assert(pipeline_rel(
                    node.script.commands.deep_view(),
                    doc@,
                    old(vars)@,
                    init_pairs_at(roots_at),
                    Ok(ps),
                ));
            }
            let values = crate::interp::strings_from_pairs(&pairs);
            let ghost before = vars@;
            vars.append_values(node.name.as_str(), &values);
            proof {
                crate::vars::lemma_store_append_extends(before, node.name@, values.deep_view());
                crate::template::lemma_value_fields_own(*node);
                crate::vars::lemma_store_append_confined(
                    before,
                    node.name@,
                    values.deep_view(),
                    own_names,
                );
                assert(vars@ == store_append(before, node.name@, strings_of(ps)));
                assert(node_step_rel(*node, doc@, roots_at, old(vars)@, vars@));
            }
            Ok(())
        },
        ScriptMode::Text => Ok(()),
    }
}

/// A crawl in progress: the workflows left to run, the variable store so
/// far, and the URLs of the workflow being fetched.
pub struct CrawlSession {
    workflows: Vec<WorkflowRoot>,
    vars: VarStore,
    widx: usize,
    urls: Vec<String>,
    uidx: usize,
}

impl CrawlSession {
    /// The session's invariant: the store and the remaining workflows are
    /// well formed, and while a workflow is active its URL cursor is valid.
    pub closed spec fn wf(self) -> bool {
        &&& self.vars.wf()
        &&& forall|k: int|
            0 <= k < self.workflows@.len() ==> (#[trigger] self.workflows@[k]).wf()
        &&& (self.widx < self.workflows@.len() ==> self.uidx < self.urls@.len())
    }

    /// Whether the crawl has run out of work.
    pub closed spec fn done_spec(self) -> bool {
        self.widx >= self.workflows@.len()
    }

    /// The variable store accumulated so far.
    pub closed spec fn vars_view(self) -> Map<Seq<char>, Seq<Seq<char>>> {
        self.vars@
    }

    /// The workflows the crawl runs, in order.
    pub closed spec fn workflows_view(self) -> Seq<WorkflowRoot> {
        self.workflows@
    }

    /// The index of the workflow being fetched.
    pub closed spec fn workflow_index(self) -> int {
        self.widx as int
    }

    /// The URL set of the workflow being fetched.
    pub closed spec fn urls_view(self) -> Seq<Seq<char>> {
        self.urls.deep_view()
    }

    /// The position of the next URL within the current workflow.
    pub closed spec fn url_index(self) -> int {
        self.uidx as int
    }

    pub fn done(&self) -> (r: bool)
        ensures
            r == self.done_spec(),
    {
        self.widx >= self.workflows.len()
    }

    /// The next URL the caller should fetch — the current workflow's
    /// current URL — or nothing when the crawl is complete.
    pub fn next_url(&self) -> (r: Option<String>)
        requires
            self.wf(),
        ensures
            match r {
                Some(u) => !self.done_spec() && u@ == self.urls_view()[self.url_index()],
                None => self.done_spec(),
            },
    {
        if self.widx < self.workflows.len() {
            proof {
                assert(self.urls.deep_view()[self.uidx as int] == self.urls@[self.uidx as int]@);
            }
            Some(self.urls[self.uidx].clone())
        } else {
            None
        }
    }

    /// The variable store, for binding into a record.
    pub fn variables(&self) -> (r: &VarStore)
        ensures
            r@ == self.vars_view(),
            self.wf() ==> r.wf(),
    {
        &self.vars
    }

    /// Hand the fetched body for the current URL to the engine: the page
    /// is parsed, the current workflow's nodes are walked over it in
    /// source order from the document root (the walk relation fixes what
    /// each node stores), and the cursor moves to the next URL, or to the
    /// next workflow whose URL variable then holds values — workflows
    /// whose URL variable is absent or empty are skipped — or the crawl is
    /// done. The first failing node's error is returned and ends the
    /// session.
    pub fn provide_document(&mut self, body: &str) -> (r: Result<(), CrawlerErr>)
        requires
            old(self).wf(),
            !old(self).done_spec(),
        ensures
            final(self).wf(),
            final(self).workflows_view() == old(self).workflows_view(),
            store_extends(old(self).vars_view(), final(self).vars_view()),
            crate::vars::store_confined(
                old(self).vars_view(),
                final(self).vars_view(),
                value_fields(
                    old(self).workflows_view()[old(self).workflow_index()].nodes@,
                ),
            ),
            r is Err ==> final(self).done_spec(),
            r is Ok ==> exists|dv: Seq<crate::dom::ElemView>|
                {
                    &&& #[trigger] crate::dom::dom_wf(dv)
                    &&& walk_rel(
                        old(self).workflows_view()[old(self).workflow_index()].nodes@,
                        dv,
                        seq![0int],
                        old(self).vars_view(),
                        final(self).vars_view(),
                    )
                },
            r is Ok ==> (if old(self).url_index() + 1 < old(self).urls_view().len() {
                &&& final(self).workflow_index() == old(self).workflow_index()
                &&& final(self).url_index() == old(self).url_index() + 1
                &&& final(self).urls_view() == old(self).urls_view()
            } else {
                &&& old(self).workflow_index() < final(self).workflow_index()
                &&& final(self).workflow_index() <= final(self).workflows_view().len()
                &&& forall|w: int|
                    old(self).workflow_index() < w < final(self).workflow_index()
                        ==> skipped_key(
                        final(self).vars_view(),
                        (#[trigger] final(self).workflows_view()[w]).url_key@,
                    )
                &&& (!final(self).done_spec() ==> {
                    let key = final(self).workflows_view()[final(self).workflow_index()].url_key@;
                    &&& final(self).vars_view().contains_key(key)
                    &&& final(self).urls_view() == final(self).vars_view()[key]
                    &&& final(self).urls_view().len() > 0
                    &&& final(self).url_index() == 0
                })
            }),
    {
        proof {
            crate::vars::lemma_store_extends_refl(self.vars@);
        }
        let doc = Document::parse(body);
        let mut roots: Vec<usize> = Vec::new();
        roots.push(doc.root());
        proof {
            assert(forall|k: int|
                0 <= k < roots@.len() ==> (#[trigger] roots@[k]) < doc@.len());
            assert(roots@.map_values(|u: usize| u as int) =~= seq![0int]);
        }
        let ghost cur_nodes = self.workflows@[self.widx as int].nodes@;
        proof {
            assert(cur_nodes.take(0) =~= Seq::<WorkflowNode>::empty());
            assert(walk_rel(cur_nodes.take(0), doc@, seq![0int], old(self).vars@, self.vars@));
        }
        let mut j: usize = 0;
        let n = self.workflows[self.widx].nodes.len();
        while j < n
            invariant
                j <= n,
                doc.wf(),
                self.vars.wf(),
                self.widx < self.workflows@.len(),
                n == self.workflows@[self.widx as int].nodes@.len(),
                cur_nodes == self.workflows@[self.widx as int].nodes@,
                forall|k: int|
                    0 <= k < self.workflows@.len() ==> (#[trigger] self.workflows@[k]).wf(),
                forall|k: int| 0 <= k < roots@.len() ==> (#[trigger] roots@[k]) < doc@.len(),
                roots@.map_values(|u: usize| u as int) == seq![0int],
                store_extends(old(self).vars@, self.vars@),
                crate::vars::store_confined(old(self).vars@, self.vars@, value_fields(cur_nodes)),
                walk_rel(cur_nodes.take(j as int), doc@, seq![0int], old(self).vars@, self.vars@),
                self.widx == old(self).widx,
                self.workflows == old(self).workflows,
                self.urls == old(self).urls,
                self.uidx == old(self).uidx,
            decreases n - j,
        {
            proof {
                assert(self.workflows@[self.widx as int].wf());
                assert(self.workflows@[self.widx as int].nodes@[j as int].wf());
            }
            let widx = self.widx;
            let ghost before = self.vars@;
            let step = process_node(
                &self.workflows[widx].nodes[j],
                &doc,
                &roots,
                &mut self.vars,
            );
            proof {
                crate::vars::lemma_store_extends_trans(
                    old(self).vars@,
                    before,
                    self.vars@,
                );
                assert forall|x: Seq<char>|
                    value_fields(seq![cur_nodes[j as int]]).contains(x)
                        implies #[trigger] value_fields(cur_nodes).contains(x) by {
                    crate::template::lemma_value_fields_elem(cur_nodes, j as int, x);
                }
                crate::vars::lemma_store_confined_weaken(
                    before,
                    self.vars@,
                    value_fields(seq![cur_nodes[j as int]]),
                    value_fields(cur_nodes),
                );
                crate::vars::lemma_store_confined_trans(
                    old(self).vars@,
                    before,
                    self.vars@,
                    value_fields(cur_nodes),
                );
            }
            match step {
                Ok(()) => {},
                Err(e) => {
                    let total = self.workflows.len();
                    self.widx = total;
                    return Err(e);
                },
            }
            proof {
                assert(node_step_rel(cur_nodes[j as int], doc@, seq![0int], before, self.vars@));
                assert(cur_nodes.take(j + 1).drop_last() =~= cur_nodes.take(j as int));
                assert(cur_nodes.take(j + 1).last() == cur_nodes[j as int]);
                assert(chains_through(before));
                assert(walk_rel(cur_nodes.take(j + 1), doc@, seq![0int], old(self).vars@, self.vars@));
            }
            j = j + 1;
        }
        proof {
            assert(cur_nodes.take(cur_nodes.len() as int) =~= cur_nodes);
            assert(crate::dom::dom_wf(doc@));
            assert(walk_rel(cur_nodes, doc@, seq![0int], old(self).vars@, self.vars@));
        }
        let ghost walked = self.vars@;
        let un = self.urls.len();
        let wn = self.workflows.len();
        proof {
            assert(old(self).widx < old(self).workflows@.len());
            assert(self.uidx < un);
            assert(self.widx < wn);
        }
        self.uidx = self.uidx + 1;
        if self.uidx >= un {
            self.widx = self.widx + 1;
            while self.widx < self.workflows.len()
                invariant
                    self.vars.wf(),
                    self.vars@ == walked,
                    doc.wf(),
                    cur_nodes == old(self).workflows@[old(self).widx as int].nodes@,
                    old(self).widx < old(self).workflows@.len(),
                    walk_rel(cur_nodes, doc@, seq![0int], old(self).vars@, walked),
                    old(self).uidx + 1 >= old(self).urls.deep_view().len(),
                    old(self).urls@.len() == old(self).urls.deep_view().len(),
                    store_extends(old(self).vars@, self.vars@),
                    crate::vars::store_confined(old(self).vars@, self.vars@, value_fields(cur_nodes)),
                    old(self).widx < self.widx,
                    self.widx <= self.workflows@.len(),
                    self.workflows == old(self).workflows,
                    forall|k: int|
                        0 <= k < self.workflows@.len() ==> (#[trigger] self.workflows@[k]).wf(),
                    forall|w: int|
                        old(self).widx < w < self.widx ==> skipped_key(
                            self.vars@,
                            (#[trigger] self.workflows@[w]).url_key@,
                        ),
                decreases self.workflows@.len() - self.widx,
            {
                let widx = self.widx;
                let key = self.workflows[widx].url_key.clone();
                let has_urls: bool = match self.vars.get(key.as_str()) {
                    Some(v) => {
                        proof {
                            assert(v.deep_view().len() == v@.len());
                        }
                        if v.len() > 0 {
                            let urls = crate::binder::clone_values(v);
                            self.urls = urls;
                            self.uidx = 0;
                            proof {
                                assert(self.urls.deep_view() == self.vars@[key@]);
                            }
                            return Ok(());
                        }
                        false
                    },
                    None => false,
                };
                proof {
                    assert(!has_urls);
                    assert(skipped_key(self.vars@, self.workflows@[widx as int].url_key@));
                }
                self.widx = self.widx + 1;
            }
        }
        Ok(())
    }
}


impl Template {
    /// The variable store a crawl starts from: the template's environment,
    /// one binding per entry, later entries winning on a repeated name.
    pub fn get_start_parameters(&self) -> (r: VarStore)
        ensures
            r.wf(),
            r@ == crate::vars::store_map(self.parameters@),
    {
        let mut vars = VarStore::new();
        let mut k: usize = 0;
        proof {
            assert(self.parameters@.take(0) =~= Seq::<(String, Vec<String>)>::empty());
        }
        while k < self.parameters.len()
            invariant
                k <= self.parameters@.len(),
                vars.wf(),
                vars@ == crate::vars::store_map(self.parameters@.take(k as int)),
            decreases self.parameters@.len() - k,
        {
            let values = crate::binder::clone_values(&self.parameters[k].1);
            vars.set(self.parameters[k].0.as_str(), values);
            proof {
                assert(self.parameters@.take(k + 1).drop_last() =~= self.parameters@.take(
                    k as int,
                ));
                assert(self.parameters@.take(k + 1).last() == self.parameters@[k as int]);
            }
            k = k + 1;
        }
        proof {
            assert(self.parameters@.take(self.parameters@.len() as int) =~= self.parameters@);
        }
        vars
    }

    /// Begin a crawl: seed the variable store from the template's
    /// environment and then the caller's parameters (the caller wins on a
    /// shared name, and each caller value is a one-element binding), and
    /// build the entrypoint URL. The session starts at the entrypoint
    /// workflow with exactly that URL queued; starting fails exactly when
    /// the entrypoint substitution fails over the merged store.
    pub fn start_session(self, caller_params: Vec<(String, String)>) -> (r: Result<
        CrawlSession,
        CrawlerErr,
    >)
        requires
            self.wf(),
        ensures
            ({
                let merged = caller_merge(
                    crate::vars::store_map(self.parameters@),
                    caller_params@,
                );
                match r {
                    Ok(s) => {
                        &&& s.wf()
                        &&& !s.done_spec()
                        &&& s.vars_view() == merged
                        &&& s.workflows_view() == self.workflows@
                        &&& s.workflow_index() == 0
                        &&& s.url_index() == 0
                        &&& s.urls_view().len() == 1
                        &&& entry_spec(self.entrypoint@, merged) == Ok::<Seq<char>, ErrView>(
                            s.urls_view()[0],
                        )
                    },
                    Err(e) => entry_spec(self.entrypoint@, merged) == Err::<Seq<char>, ErrView>(
                        e@,
                    ),
                }
            }),
    {
        let mut vars = self.get_start_parameters();
        let mut q: usize = 0;
        proof {
            assert(caller_params@.take(0) =~= Seq::<(String, String)>::empty());
        }
        while q < caller_params.len()
            invariant
                q <= caller_params@.len(),
                vars.wf(),
                vars@ == caller_merge(
                    crate::vars::store_map(self.parameters@),
                    caller_params@.take(q as int),
                ),
            decreases caller_params@.len() - q,
        {
            let mut single: Vec<String> = Vec::new();
            single.push(caller_params[q].1.clone());
            proof {
                assert(single.deep_view() =~= seq![caller_params@[q as int].1@]);
            }
            vars.set(caller_params[q].0.as_str(), single);
            proof {
                assert(caller_params@.take(q + 1).drop_last() =~= caller_params@.take(q as int));
                assert(caller_params@.take(q + 1).last() == caller_params@[q as int]);
            }
            q = q + 1;
        }
        proof {
            assert(caller_params@.take(caller_params@.len() as int) =~= caller_params@);
        }
        let url = self.build_entrypoint_url(&vars)?;
        let mut urls: Vec<String> = Vec::new();
        urls.push(url);
        proof {
            assert(urls.deep_view() =~= seq![urls@[0]@]);
        }
        Ok(CrawlSession { workflows: self.workflows, vars, widx: 0, urls, uidx: 0 })
    }
}

} // verus!
