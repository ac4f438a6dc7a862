//! The template model and its loader: a raw tree of named nodes is checked
//! (names unique across the whole tree, value nodes with children must be
//! request nodes), its scripts are parsed, and the tree is flattened into
//! workflows: the entrypoint workflow first, then one derived workflow per
//! request node in pre-order.

use vstd::prelude::*;

use crate::errors::{CrawlerErr, ErrView};
use crate::script::{classify_spec, CrawlerScript, ScriptMode};
use crate::vars::VarStore;

verus! {

/// A raw template node, as the surrounding format hands it over: the
/// script text, the request flag, and named children in source order.
pub struct RawNode {
    pub script: String,
    pub request: bool,
    pub children: Vec<(String, RawNode)>,
}

impl RawNode {
    /// A leaf node with just a script.
    pub fn leaf(script: String) -> (r: RawNode)
        ensures
            r.script == script,
            r.request == false,
            r.children@.len() == 0,
    {
        RawNode { script, request: false, children: Vec::new() }
    }
}

/// The names of a node list's tree, in pre-order: each node's name, then
/// the names under it.
pub open spec fn raw_names(nodes: Seq<(String, RawNode)>) -> Seq<Seq<char>>
    decreases nodes,
{
    if nodes.len() == 0 {
        Seq::empty()
    } else {
        seq![nodes[0].0@] + raw_names(nodes[0].1.children@) + raw_names(nodes.skip(1))
    }
}

/// Whether a name sequence holds the same name twice.
pub open spec fn has_dup(names: Seq<Seq<char>>) -> bool {
    exists|i: int, j: int| 0 <= i < j < names.len() && names[i] == names[j]
}

/// A script text the loader accepts for a node: it parses, classifies, and
/// is not text-only.
pub open spec fn script_ok(s: Seq<char>) -> bool {
    &&& crate::parser::parse_script_spec(s) is Some
    &&& classify_spec(crate::parser::parse_script_spec(s)->Some_0) is Some
    &&& classify_spec(crate::parser::parse_script_spec(s)->Some_0) != Some(ScriptMode::Text)
}

/// The mode of an accepted node script.
pub open spec fn script_mode(s: Seq<char>) -> ScriptMode {
    classify_spec(crate::parser::parse_script_spec(s)->Some_0)->Some_0
}

/// Whether in-workflow conversion accepts a raw node list: every script is
/// accepted, no value-mode node keeps children without being a request
/// node, and the children of non-request nodes are accepted in turn
/// (request nodes' children belong to their derived workflow).
pub open spec fn conv_ok(nodes: Seq<(String, RawNode)>) -> bool
    decreases nodes,
{
    if nodes.len() == 0 {
        true
    } else {
        &&& script_ok(nodes[0].1.script@)
        &&& !(script_mode(nodes[0].1.script@) == ScriptMode::Value && nodes[0].1.children@.len()
            > 0 && !nodes[0].1.request)
        &&& (nodes[0].1.request || conv_ok(nodes[0].1.children@))
        &&& conv_ok(nodes.skip(1))
    }
}

/// How in-workflow conversion relates a raw node list to its executable
/// nodes: names are kept in order, each script is the parse of its text
/// with its classification, and a request node's children are dropped
/// here, while a plain node's children convert recursively.
pub open spec fn conv_rel(nodes: Seq<(String, RawNode)>, ws: Seq<WorkflowNode>) -> bool
    decreases nodes,
{
    &&& ws.len() == nodes.len()
    &&& (nodes.len() == 0 || {
        &&& ws[0].name@ == nodes[0].0@
        &&& crate::parser::parse_script_spec(nodes[0].1.script@) == Some(
            ws[0].script.commands.deep_view(),
        )
        &&& classify_spec(ws[0].script.commands.deep_view()) == Some(ws[0].script.rule)
        &&& ws[0].script.rule != ScriptMode::Text
        &&& (if nodes[0].1.request {
            ws[0].children@.len() == 0
        } else {
            conv_rel(nodes[0].1.children@, ws[0].children@)
        })
        &&& conv_rel(nodes.skip(1), ws.skip(1))
    })
}

/// The request nodes of a tree, in pre-order: each becomes one derived
/// workflow.
pub open spec fn derived_srcs(nodes: Seq<(String, RawNode)>) -> Seq<(String, RawNode)>
    decreases nodes,
{
    if nodes.len() == 0 {
        Seq::empty()
    } else {
        (if nodes[0].1.request {
            seq![nodes[0]]
        } else {
            Seq::empty()
        }) + derived_srcs(nodes[0].1.children@) + derived_srcs(nodes.skip(1))
    }
}

/// Whether derived-workflow construction accepts a tree: every request
/// node's children convert.
pub open spec fn derived_ok(nodes: Seq<(String, RawNode)>) -> bool
    decreases nodes,
{
    if nodes.len() == 0 {
        true
    } else {
        &&& (!nodes[0].1.request || conv_ok(nodes[0].1.children@))
        &&& derived_ok(nodes[0].1.children@)
        &&& derived_ok(nodes.skip(1))
    }
}

/// Conversion of one more node at the end extends the relation.
proof fn lemma_conv_rel_snoc(
    nodes: Seq<(String, RawNode)>,
    ws: Seq<WorkflowNode>,
    p: (String, RawNode),
    w: WorkflowNode,
)
    requires
        conv_rel(nodes, ws),
        w.name@ == p.0@,
        crate::parser::parse_script_spec(p.1.script@) == Some(w.script.commands.deep_view()),
        classify_spec(w.script.commands.deep_view()) == Some(w.script.rule),
        w.script.rule != ScriptMode::Text,
        (if p.1.request {
            w.children@.len() == 0
        } else {
            conv_rel(p.1.children@, w.children@)
        }),
    ensures
        conv_rel(nodes.push(p), ws.push(w)),
    decreases nodes.len(),
{
    if nodes.len() == 0 {
        assert(nodes.push(p) =~= seq![p]);
        assert(ws.push(w) =~= seq![w]);
        assert(seq![p].skip(1) =~= Seq::<(String, RawNode)>::empty());
        assert(seq![w].skip(1) =~= Seq::<WorkflowNode>::empty());
        assert(conv_rel(seq![p].skip(1), seq![w].skip(1)));
    } else {
        lemma_conv_rel_snoc(nodes.skip(1), ws.skip(1), p, w);
        assert(nodes.push(p)[0] == nodes[0]);
        assert(ws.push(w)[0] == ws[0]);
        assert(nodes.push(p).skip(1) =~= nodes.skip(1).push(p));
        assert(ws.push(w).skip(1) =~= ws.skip(1).push(w));
    }
}

/// One executable node: its name, its parsed script, and its children.
pub struct WorkflowNode {
    pub name: String,
    pub script: CrawlerScript,
    pub children: Vec<WorkflowNode>,
}

impl WorkflowNode {
    /// Every script in the subtree is classified as element or value
    /// access.
    pub open spec fn wf(self) -> bool
        decreases self,
    {
        &&& classify_spec(self.script.commands.deep_view()) == Some(self.script.rule)
        &&& self.script.rule != ScriptMode::Text
        &&& forall|k: int| 0 <= k < self.children@.len() ==> (#[trigger] self.children@[k]).wf()
    }
}

/// One unit of fetching and extraction: a URL source and the nodes to walk
/// on each fetched page. The entrypoint workflow has the empty `url_key`;
/// a derived workflow's URLs are the captured values of its key.
pub struct WorkflowRoot {
    pub url_key: String,
    pub nodes: Vec<WorkflowNode>,
}

impl WorkflowRoot {
    pub open spec fn wf(self) -> bool {
        forall|k: int| 0 <= k < self.nodes@.len() ==> (#[trigger] self.nodes@[k]).wf()
    }

    /// A workflow made of already-converted nodes.
    pub fn new(url_key: String, nodes: Vec<WorkflowNode>) -> (r: WorkflowRoot)
        ensures
            r.url_key == url_key,
            r.nodes == nodes,
    {
        WorkflowRoot { url_key, nodes }
    }
}

/// The names under which the nodes of a list capture values, in pre-order:
/// a value node's own name, then the capture names under it.
pub open spec fn value_fields(nodes: Seq<WorkflowNode>) -> Seq<Seq<char>>
    decreases nodes,
{
    if nodes.len() == 0 {
        Seq::empty()
    } else {
        (if nodes[0].script.rule == ScriptMode::Value {
            seq![nodes[0].name@]
        } else {
            Seq::empty()
        }) + value_fields(nodes[0].children@) + value_fields(nodes.skip(1))
    }
}

/// Collect the capture names of a node list, in pre-order.
fn collect_value_fields(nodes: &Vec<WorkflowNode>, out: &mut Vec<String>)
    ensures
        final(out).deep_view() == old(out).deep_view() + value_fields(nodes@),
    decreases nodes,
{
    let ghost base = out.deep_view();
    proof {
        assert(nodes@.skip(0) =~= nodes@);
    }
    let mut k: usize = 0;
    while k < nodes.len()
        invariant
            k <= nodes@.len(),
            base + value_fields(nodes@) =~~= out.deep_view() + value_fields(nodes@.skip(k as int)),
        decreases nodes@.len() - k,
    {
        let ghost pre = out.deep_view();
        if matches!(nodes[k].script.rule, ScriptMode::Value) {
            out.push(nodes[k].name.clone());
            proof {
                assert(out.deep_view() =~~= pre.push(nodes@[k as int].name@));
            }
        }
        let ghost mid = out.deep_view();
        collect_value_fields(&nodes[k].children, out);
        proof {
            let tail = nodes@.skip(k as int);
            assert(tail[0] == nodes@[k as int]);
            assert(tail.skip(1) =~= nodes@.skip(k + 1));
            assert(value_fields(tail) == (if nodes@[k as int].script.rule == ScriptMode::Value {
                seq![nodes@[k as int].name@]
            } else {
                Seq::<Seq<char>>::empty()
            }) + value_fields(nodes@[k as int].children@) + value_fields(nodes@.skip(k + 1)));
            assert(out.deep_view() =~~= mid + value_fields(nodes@[k as int].children@));
            assert(out.deep_view() + value_fields(nodes@.skip(k + 1)) =~~= pre + value_fields(
                tail,
            ));
            assert(base + value_fields(nodes@) =~~= out.deep_view() + value_fields(
                nodes@.skip(k + 1),
            ));
        }
        k = k + 1;
    }
    proof {
        assert(nodes@.skip(k as int) =~= Seq::<WorkflowNode>::empty());
        assert(base + value_fields(nodes@) =~~= out.deep_view());
    }
}

/// Membership distributes over concatenation.
proof fn lemma_contains_concat(a: Seq<Seq<char>>, b: Seq<Seq<char>>, x: Seq<char>)
    ensures
        (a + b).contains(x) <==> (a.contains(x) || b.contains(x)),
{
    if a.contains(x) {
        let i = choose|i: int| 0 <= i < a.len() && a[i] == x;
        assert((a + b)[i] == x);
    }
    if b.contains(x) {
        let i = choose|i: int| 0 <= i < b.len() && b[i] == x;
        assert((a + b)[a.len() + i] == x);
    }
    if (a + b).contains(x) {
        let i = choose|i: int| 0 <= i < (a + b).len() && (a + b)[i] == x;
        if i < a.len() {
            assert(a[i] == x);
        } else {
            assert(b[i - a.len()] == x);
        }
    }
}

/// A node's capture names are among its list's capture names.
pub proof fn lemma_value_fields_elem(nodes: Seq<WorkflowNode>, j: int, x: Seq<char>)
    requires
        0 <= j < nodes.len(),
        value_fields(seq![nodes[j]]).contains(x),
    ensures
        value_fields(nodes).contains(x),
    decreases j,
{
    let head_part: Seq<Seq<char>> = if nodes[0].script.rule == ScriptMode::Value {
        seq![nodes[0].name@]
    } else {
        Seq::empty()
    };
    assert(value_fields(nodes) == head_part + value_fields(nodes[0].children@) + value_fields(
        nodes.skip(1),
    ));
    if j == 0 {
        let single = seq![nodes[0]];
        assert(single[0] == nodes[0]);
        assert(single.skip(1) =~= Seq::<WorkflowNode>::empty());
        assert(value_fields(single) == head_part + value_fields(nodes[0].children@)
            + value_fields(single.skip(1)));
        assert(value_fields(single.skip(1)) =~= Seq::<Seq<char>>::empty());
        lemma_contains_concat(
            head_part + value_fields(nodes[0].children@),
            value_fields(single.skip(1)),
            x,
        );
        lemma_contains_concat(head_part + value_fields(nodes[0].children@), value_fields(
            nodes.skip(1),
        ), x);
    } else {
        assert(nodes.skip(1)[j - 1] == nodes[j]);
        lemma_value_fields_elem(nodes.skip(1), j - 1, x);
        lemma_contains_concat(head_part + value_fields(nodes[0].children@), value_fields(
            nodes.skip(1),
        ), x);
    }
}

/// A node's children's capture names are among the node's own capture
/// names.
pub proof fn lemma_value_fields_children(node: WorkflowNode, x: Seq<char>)
    requires
        value_fields(node.children@).contains(x),
    ensures
        value_fields(seq![node]).contains(x),
{
    let single = seq![node];
    let head_part: Seq<Seq<char>> = if node.script.rule == ScriptMode::Value {
        seq![node.name@]
    } else {
        Seq::empty()
    };
    assert(single[0] == node);
    assert(single.skip(1) =~= Seq::<WorkflowNode>::empty());
    assert(value_fields(single) == head_part + value_fields(node.children@) + value_fields(
        single.skip(1),
    ));
    lemma_contains_concat(head_part, value_fields(node.children@), x);
    lemma_contains_concat(head_part + value_fields(node.children@), value_fields(
        single.skip(1),
    ), x);
}

/// A value node's own name is among its capture names.
pub proof fn lemma_value_fields_own(node: WorkflowNode)
    requires
        node.script.rule == ScriptMode::Value,
    ensures
        value_fields(seq![node]).contains(node.name@),
{
    let single = seq![node];
    assert(single[0] == node);
    assert(value_fields(single) == seq![node.name@] + value_fields(node.children@)
        + value_fields(single.skip(1)));
    assert((seq![node.name@] + value_fields(node.children@) + value_fields(single.skip(1)))[0]
        == node.name@);
}

impl WorkflowRoot {
    /// The names this workflow can capture under, in pre-order.
    pub fn get_all_fields(&self) -> (r: Vec<String>)
        ensures
            r.deep_view() == value_fields(self.nodes@),
    {
        let mut out: Vec<String> = Vec::new();
        collect_value_fields(&self.nodes, &mut out);
        proof {
            assert(Seq::<Seq<char>>::empty() + value_fields(self.nodes@) =~~= value_fields(
                self.nodes@,
            ));
        }
        out
    }
}

/// A loaded template: the entrypoint URL pattern, the initial environment,
/// and the workflows in execution order.
pub struct Template {
    pub entrypoint: String,
    pub parameters: Vec<(String, Vec<String>)>,
    pub workflows: Vec<WorkflowRoot>,
}

impl Template {
    pub open spec fn wf(self) -> bool {
        &&& self.workflows@.len() >= 1
        &&& self.workflows@[0].url_key@ == Seq::<char>::empty()
        &&& forall|k: int| 0 <= k < self.workflows@.len() ==> (#[trigger] self.workflows@[k]).wf()
    }
}

/// The names of the tree rooted in a node list, in pre-order, computed.
fn collect_names(nodes: &Vec<(String, RawNode)>, out: &mut Vec<String>)
    ensures
        final(out).deep_view() == old(out).deep_view() + raw_names(nodes@),
    decreases nodes,
{
    let ghost base = out.deep_view();
    proof {
        assert(nodes@.skip(0) =~= nodes@);
    }
    let mut k: usize = 0;
    while k < nodes.len()
        invariant
            k <= nodes@.len(),
            base + raw_names(nodes@) =~~= out.deep_view() + raw_names(nodes@.skip(k as int)),
        decreases nodes@.len() - k,
    {
        let ghost pre = out.deep_view();
        out.push(nodes[k].0.clone());
        proof {
            assert(out.deep_view() =~~= pre.push(nodes@[k as int].0@));
        }
        let ghost mid = out.deep_view();
        collect_names(&nodes[k].1.children, out);
        proof {
            let tail = nodes@.skip(k as int);
            assert(tail[0] == nodes@[k as int]);
            assert(tail.skip(1) =~= nodes@.skip(k + 1));
            assert(raw_names(tail) == seq![nodes@[k as int].0@] + raw_names(
                nodes@[k as int].1.children@,
            ) + raw_names(nodes@.skip(k + 1)));
            assert(out.deep_view() =~~= mid + raw_names(nodes@[k as int].1.children@));
            assert(out.deep_view() + raw_names(nodes@.skip(k + 1)) =~~= pre + (raw_names(tail)));
            assert(base + raw_names(nodes@) =~~= out.deep_view() + raw_names(
                nodes@.skip(k + 1),
            ));
        }
        k = k + 1;
    }
    proof {
        assert(nodes@.skip(k as int) =~= Seq::<(String, RawNode)>::empty());
        assert(base + raw_names(nodes@) =~~= out.deep_view());
    }
}

/// The first name that occurs twice, if any.
fn find_dup(names: &Vec<String>) -> (r: Option<String>)
    ensures
        match r {
            Some(_) => has_dup(names.deep_view()),
            None => !has_dup(names.deep_view()),
        },
{
    let ghost nv = names.deep_view();
    proof {
        assert(nv.len() == names@.len());
    }
    let mut i: usize = 0;
    while i < names.len()
        invariant
            i <= names@.len(),
            nv == names.deep_view(),
            nv.len() == names@.len(),
            forall|a: int, b: int| 0 <= a < b < nv.len() && a < i ==> nv[a] != nv[b],
        decreases names@.len() - i,
    {
        let mut j: usize = i + 1;
        while j < names.len()
            invariant
                i < j <= names@.len(),
                i < names@.len(),
                nv == names.deep_view(),
                nv.len() == names@.len(),
                forall|b: int| i < b < j ==> nv[i as int] != nv[b],
            decreases names@.len() - j,
        {
            if crate::text::str_eq(names[i].as_str(), names[j].as_str()) {
                proof {
                    assert(nv[i as int] == names@[i as int]@);
                    assert(nv[j as int] == names@[j as int]@);
                    assert(nv[i as int] == nv[j as int]);
                }
                return Some(names[i].clone());
            }
            proof {
                assert(nv[i as int] == names@[i as int]@);
                assert(nv[j as int] == names@[j as int]@);
            }
            j = j + 1;
        }
        i = i + 1;
    }
    None
}

/// Convert a raw node list into executable nodes: parse each script,
/// reject value nodes that have children without being request nodes, and
/// drop the children of request nodes (those run in the derived workflow).
/// Succeeds exactly on the lists `conv_ok` accepts, and then the result
/// stands in `conv_rel` to the input.
fn convert_nodes(nodes: &Vec<(String, RawNode)>) -> (r: Result<Vec<WorkflowNode>, CrawlerErr>)
    ensures
        r is Ok <==> conv_ok(nodes@),
        match r {
            Ok(ws) => conv_rel(nodes@, ws@) && forall|k: int|
                0 <= k < ws@.len() ==> (#[trigger] ws@[k]).wf(),
            Err(e) => !(e is DuplicateKey),
        },
    decreases nodes,
{
    let mut out: Vec<WorkflowNode> = Vec::new();
    let mut k: usize = 0;
    proof {
        assert(nodes@.skip(0) =~= nodes@);
        assert(nodes@.take(0) =~= Seq::<(String, RawNode)>::empty());
        assert(out@ =~= Seq::<WorkflowNode>::empty());
        assert(conv_rel(nodes@.take(0), out@));
    }
    while k < nodes.len()
        invariant
            k <= nodes@.len(),
            conv_ok(nodes@) == conv_ok(nodes@.skip(k as int)),
            conv_rel(nodes@.take(k as int), out@),
            forall|q: int| 0 <= q < out@.len() ==> (#[trigger] out@[q]).wf(),
        decreases nodes@.len() - k,
    {
        proof {
            assert(nodes@.skip(k as int)[0] == nodes@[k as int]);
            assert(nodes@.skip(k as int).skip(1) =~= nodes@.skip(k + 1));
        }
        let script = match CrawlerScript::new(nodes[k].1.script.as_str(), false) {
            Ok(script) => script,
            Err(e) => {
                proof {
                    lemma_script_err_not_duplicate(nodes@[k as int].1.script@, false, e);
                    if crate::parser::parse_script_spec(nodes@[k as int].1.script@) is Some {
                        assert(!script_ok(nodes@[k as int].1.script@));
                    }
                    assert(!conv_ok(nodes@.skip(k as int)));
                }
                return Err(e);
            },
        };
        proof {
            assert(script_ok(nodes@[k as int].1.script@));
            assert(script_mode(nodes@[k as int].1.script@) == script.rule);
        }
        let is_value = matches!(script.rule, ScriptMode::Value);
        if is_value && nodes[k].1.children.len() > 0 && !nodes[k].1.request {
            proof {
                assert(!conv_ok(nodes@.skip(k as int)));
            }
            return Err(CrawlerErr::RootElementAccessNotAllowed(nodes[k].0.clone()));
        }
        let children = if nodes[k].1.request {
            Vec::new()
        } else {
            match convert_nodes(&nodes[k].1.children) {
                Ok(children) => children,
                Err(e) => {
                    proof {
                        assert(!conv_ok(nodes@[k as int].1.children@));
                        assert(!conv_ok(nodes@.skip(k as int)));
                    }
                    return Err(e);
                },
            }
        };
        let node = WorkflowNode { name: nodes[k].0.clone(), script, children };
        proof {
            assert(node.wf());
        }
        let ghost pre_out = out@;
        out.push(node);
        proof {
            assert(out@ == pre_out.push(node));
            lemma_conv_rel_snoc(nodes@.take(k as int), pre_out, nodes@[k as int], node);
            assert(nodes@.take(k + 1) =~= nodes@.take(k as int).push(nodes@[k as int]));
            assert(conv_rel(nodes@.take(k + 1), out@));
        }
        k = k + 1;
    }
    proof {
        assert(nodes@.skip(k as int) =~= Seq::<(String, RawNode)>::empty());
        assert(conv_ok(nodes@.skip(k as int)));
        assert(nodes@.take(k as int) =~= nodes@);
    }
    Ok(out)
}

/// A script parse failure is never a duplicate-key failure.
proof fn lemma_script_err_not_duplicate(text: Seq<char>, is_text: bool, e: CrawlerErr)
    requires
        match crate::parser::parse_script_spec(text) {
            None => e@ is ScriptParseError,
            Some(cs) => (classify_spec(cs) is None && e@ is ScriptParseError) || (classify_spec(
                cs,
            ) == Some(ScriptMode::Text) && !is_text && e@ is CharProcessAlone),
        },
    ensures
        !(e is DuplicateKey),
{
    if crate::parser::parse_script_spec(text) is None {
        assert(e@ is ScriptParseError);
    } else {
        assert(e@ is ScriptParseError || e@ is CharProcessAlone);
    }
}

/// Append one derived workflow per request node, in pre-order over the
/// whole tree: each derived workflow carries the request node's name as
/// its URL key and the conversion of that node's children as its nodes.
fn collect_derived(nodes: &Vec<(String, RawNode)>, out: &mut Vec<WorkflowRoot>) -> (r: Result<
    (),
    CrawlerErr,
>)
    requires
        forall|q: int| 0 <= q < old(out)@.len() ==> (#[trigger] old(out)@[q]).wf(),
    ensures
        r is Ok <==> derived_ok(nodes@),
        final(out)@.len() >= old(out)@.len(),
        forall|q: int| 0 <= q < final(out)@.len() ==> (#[trigger] final(out)@[q]).wf(),
        forall|q: int| 0 <= q < old(out)@.len() ==> final(out)@[q] == old(out)@[q],
        r is Ok ==> final(out)@.len() == old(out)@.len() + derived_srcs(nodes@).len(),
        r is Ok ==> forall|j: int|
            0 <= j < derived_srcs(nodes@).len() ==> {
                &&& (#[trigger] final(out)@[old(out)@.len() + j]).url_key@ == derived_srcs(
                    nodes@,
                )[j].0@
                &&& conv_rel(
                    derived_srcs(nodes@)[j].1.children@,
                    final(out)@[old(out)@.len() + j].nodes@,
                )
            },
        r matches Err(e) ==> !(e is DuplicateKey),
    decreases nodes,
{
    let mut k: usize = 0;
    let ghost mut done: Seq<(String, RawNode)> = Seq::empty();
    proof {
        assert(nodes@.skip(0) =~= nodes@);
        assert(derived_srcs(nodes@) =~= done + derived_srcs(nodes@.skip(0)));
    }
    while k < nodes.len()
        invariant
            k <= nodes@.len(),
            derived_ok(nodes@) == derived_ok(nodes@.skip(k as int)),
            derived_srcs(nodes@) == done + derived_srcs(nodes@.skip(k as int)),
            out@.len() == old(out)@.len() + done.len(),
            forall|q: int| 0 <= q < out@.len() ==> (#[trigger] out@[q]).wf(),
            forall|q: int| 0 <= q < old(out)@.len() ==> out@[q] == old(out)@[q],
            forall|j: int|
                0 <= j < done.len() ==> {
                    &&& (#[trigger] out@[old(out)@.len() + j]).url_key@ == done[j].0@
                    &&& conv_rel(done[j].1.children@, out@[old(out)@.len() + j].nodes@)
                },
        decreases nodes@.len() - k,
    {
        proof {
            assert(nodes@.skip(k as int)[0] == nodes@[k as int]);
            assert(nodes@.skip(k as int).skip(1) =~= nodes@.skip(k + 1));
        }
        let ghost done_before = done;
        if nodes[k].1.request {
            let derived = match convert_nodes(&nodes[k].1.children) {
                Ok(derived) => derived,
                Err(e) => {
                    proof {
                        assert(!conv_ok(nodes@[k as int].1.children@));
                        assert(!derived_ok(nodes@.skip(k as int)));
                    }
                    return Err(e);
                },
            };
            let root = WorkflowRoot { url_key: nodes[k].0.clone(), nodes: derived };
            proof {
                assert(root.wf());
            }
            let ghost pre_out = out@;
            out.push(root);
            proof {
                done = done.push(nodes@[k as int]);
                assert(out@ == pre_out.push(root));
                assert forall|j: int| 0 <= j < done.len() implies {
                    &&& (#[trigger] out@[old(out)@.len() + j]).url_key@ == done[j].0@
                    &&& conv_rel(done[j].1.children@, out@[old(out)@.len() + j].nodes@)
                } by {
                    if j < done_before.len() {
                        assert(out@[old(out)@.len() + j] == pre_out[old(out)@.len() + j]);
                        assert(done[j] == done_before[j]);
                    } else {
                        assert(out@[old(out)@.len() + j] == root);
                        assert(done[j] == nodes@[k as int]);
                    }
                }
            }
        }
        let ghost done_mid = done;
        let ghost pre_rec = out@;
        let rec = collect_derived(&nodes[k].1.children, out);
        proof {
            done = done.add(derived_srcs(nodes@[k as int].1.children@));
        }
        match rec {
            Ok(()) => {},
            Err(e) => {
                proof {
                    assert(!derived_ok(nodes@[k as int].1.children@));
                    assert(!derived_ok(nodes@.skip(k as int)));
                }
                return Err(e);
            },
        }
        proof {
            let child_srcs = derived_srcs(nodes@[k as int].1.children@);
            assert(out@.len() == pre_rec.len() + child_srcs.len());
            assert(done =~= done_mid + child_srcs);
            assert(out@.len() == old(out)@.len() + done.len());
            assert forall|q: int| 0 <= q < old(out)@.len() implies out@[q] == old(out)@[q] by {
                assert(out@[q] == pre_rec[q]);
            }
            assert forall|j: int| 0 <= j < done.len() implies {
                &&& (#[trigger] out@[old(out)@.len() + j]).url_key@ == done[j].0@
                &&& conv_rel(done[j].1.children@, out@[old(out)@.len() + j].nodes@)
            } by {
                if j < done_mid.len() {
                    assert(out@[old(out)@.len() + j] == pre_rec[old(out)@.len() + j]);
                    assert(done[j] == done_mid[j]);
                } else {
                    assert(out@[old(out)@.len() + j] == out@[pre_rec.len() + (j - done_mid.len())]);
                    assert(done[j] == child_srcs[j - done_mid.len()]);
                }
            }
            let head_part: Seq<(String, RawNode)> = if nodes@[k as int].1.request {
                seq![nodes@[k as int]]
            } else {
                Seq::empty()
            };
            assert(done =~= done_before + head_part + child_srcs);
            assert(derived_srcs(nodes@.skip(k as int)) == head_part + child_srcs + derived_srcs(
                nodes@.skip(k + 1),
            ));
            assert(derived_srcs(nodes@) =~= done + derived_srcs(nodes@.skip(k + 1)));
        }
        k = k + 1;
    }
    proof {
        assert(nodes@.skip(k as int) =~= Seq::<(String, RawNode)>::empty());
        assert(derived_ok(nodes@.skip(k as int)));
        assert(derived_srcs(nodes@.skip(k as int)) =~= Seq::<(String, RawNode)>::empty());
        assert(derived_srcs(nodes@) =~= done);
    }
    Ok(())
}

impl Template {
    /// Load a template from its raw parts: the entrypoint URL pattern (and
    /// an optional text script that post-processes it under the
    /// environment), the named node tree, and the initial environment.
    ///
    /// A template whose tree binds one name twice, at any depth, is
    /// rejected with `DuplicateKey`, and that is the only way a
    /// `DuplicateKey` arises. Loading succeeds exactly when, besides, the
    /// entry script (if any) parses and runs over the environment, and the
    /// tree is accepted by conversion (`conv_ok`) and by derived-workflow
    /// construction (`derived_ok`). The loaded template then carries the
    /// post-processed entrypoint, the environment as its parameters, the
    /// entrypoint workflow converted from the top-level nodes first, and
    /// one derived workflow per request node in pre-order.
    pub fn load(
        entrypoint: String,
        entry_script: Option<String>,
        nodes: Vec<(String, RawNode)>,
        env: Vec<(String, Vec<String>)>,
    ) -> (r: Result<Template, CrawlerErr>)
        ensures
            (r matches Err(e) && e is DuplicateKey) <==> has_dup(raw_names(nodes@)),
            r is Ok <==> ({
                &&& !has_dup(raw_names(nodes@))
                &&& (match entry_script {
                    None => true,
                    Some(st) => {
                        &&& crate::parser::parse_script_spec(st@) is Some
                        &&& classify_spec(crate::parser::parse_script_spec(st@)->Some_0) is Some
                        &&& crate::interp::text_run_spec(
                            crate::parser::parse_script_spec(st@)->Some_0,
                            entrypoint@,
                            crate::vars::store_map(env@),
                        ) is Ok
                    },
                })
                &&& conv_ok(nodes@)
                &&& derived_ok(nodes@)
            }),
            r matches Ok(t) ==> {
                &&& t.wf()
                &&& t.parameters == env
                &&& (match entry_script {
                    None => t.entrypoint == entrypoint,
                    Some(st) => crate::interp::text_run_spec(
                        crate::parser::parse_script_spec(st@)->Some_0,
                        entrypoint@,
                        crate::vars::store_map(env@),
                    ) == Ok::<Seq<char>, ErrView>(t.entrypoint@),
                })
                &&& t.workflows@.len() == 1 + derived_srcs(nodes@).len()
                &&& t.workflows@[0].url_key@ == Seq::<char>::empty()
                &&& conv_rel(nodes@, t.workflows@[0].nodes@)
                &&& forall|j: int|
                    0 <= j < derived_srcs(nodes@).len() ==> {
                        &&& (#[trigger] t.workflows@[1 + j]).url_key@ == derived_srcs(
                            nodes@,
                        )[j].0@
                        &&& conv_rel(
                            derived_srcs(nodes@)[j].1.children@,
                            t.workflows@[1 + j].nodes@,
                        )
                    }
            },
    {
        let mut names: Vec<String> = Vec::new();
        collect_names(&nodes, &mut names);
        if let Some(dup) = find_dup(&names) {
            return Err(CrawlerErr::DuplicateKey(dup));
        }
        let entry_final = match &entry_script {
            None => entrypoint,
            Some(stext) => {
                let script = match CrawlerScript::new(stext.as_str(), true) {
                    Ok(s) => s,
                    Err(e) => {
                        proof {
                            lemma_script_err_not_duplicate(stext@, true, e);
                            if crate::parser::parse_script_spec(stext@) is Some {
                                assert(!(classify_spec(
                                    crate::parser::parse_script_spec(stext@)->Some_0,
                                ) is Some));
                            }
                        }
                        return Err(e);
                    },
                };
                let mut env_store = VarStore::new();
                let mut q: usize = 0;
                proof {
                    assert(env@.take(0) =~= Seq::<(String, Vec<String>)>::empty());
                }
                while q < env.len()
                    invariant
                        q <= env@.len(),
                        env_store.wf(),
                        env_store@ == crate::vars::store_map(env@.take(q as int)),
                    decreases env@.len() - q,
                {
                    let values = crate::binder::clone_values(&env[q].1);
                    env_store.set(env[q].0.as_str(), values);
                    proof {
                        assert(env@.take(q + 1).drop_last() =~= env@.take(q as int));
                        assert(env@.take(q + 1).last() == env@[q as int]);
                    }
                    q = q + 1;
                }
                proof {
                    assert(env@.take(env@.len() as int) =~= env@);
                }
                match script.get_text_value(entrypoint.as_str(), &env_store) {
                    Ok(u) => u,
                    Err(e) => {
                        proof {
                            crate::interp::lemma_text_run_err(
                                script.commands.deep_view(),
                                entrypoint@,
                                env_store@,
                            );
                            assert(crate::interp::is_eval_err(e@));
                        }
                        return Err(e);
                    },
                }
            },
        };
        let top = match convert_nodes(&nodes) {
            Ok(t) => t,
            Err(e) => {
                return Err(e);
            },
        };
        let mut workflows: Vec<WorkflowRoot> = Vec::new();
        workflows.push(WorkflowRoot { url_key: String::new(), nodes: top });
        match collect_derived(&nodes, &mut workflows) {
            Ok(()) => {},
            Err(e) => {
                return Err(e);
            },
        }
        let t = Template { entrypoint: entry_final, parameters: env, workflows };
        proof {
            assert(t.workflows@[0].url_key@ =~= Seq::<char>::empty());
            assert(t.workflows@[0].wf());
            assert(t.wf());
            assert forall|j: int| 0 <= j < derived_srcs(nodes@).len() implies {
                &&& (#[trigger] t.workflows@[1 + j]).url_key@ == derived_srcs(nodes@)[j].0@
                &&& conv_rel(derived_srcs(nodes@)[j].1.children@, t.workflows@[1 + j].nodes@)
            } by {
                assert(t.workflows@[1 + j] == t.workflows@[1int + j]);
            }
        }
        Ok(t)
    }
}

} // verus!
