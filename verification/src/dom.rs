//! The engine's own view of a parsed HTML page: an arena of element nodes
//! with parent links, per-element text, outer HTML and attributes. The
//! arena is built once per fetched page; `parent`, `prev` and `nth`
//! navigation and the string accessors are then plain verified lookups.
//! Only HTML parsing itself and CSS selector matching are relied upon from
//! the `scraper` crate.
//!
//! Element order: children are appended right after their parent is
//! expanded, in document order, so two siblings compare in document order
//! by arena index.

use vstd::prelude::*;

verus! {

#[verifier::external_type_specification]
#[verifier::external_body]
pub struct ExHtml(scraper::Html);

#[verifier::external_type_specification]
#[verifier::external_body]
pub struct ExSelector(scraper::Selector);

#[verifier::external_type_specification]
#[verifier::external_body]
pub struct ExNodeId(ego_tree::NodeId);

/// Whether a selector string is accepted by the CSS selector compiler.
pub uninterp spec fn selector_ok(s: Seq<char>) -> bool;

/// Relies on `scraper::Html::parse_document`: lenient, browser-style
/// parsing that never fails hard.
#[verifier::external_body]
fn parse_html(body: &str) -> scraper::Html {
    scraper::Html::parse_document(body)
}

/// Relies on `ego_tree::NodeRef::children`, `NodeRef::id` and
/// `scraper::ElementRef::wrap`: the id of the document's root element, or
/// of the tree root when no element exists.
#[verifier::external_body]
fn doc_root_sid(d: &scraper::Html) -> ego_tree::NodeId {
    d.tree
        .root()
        .children()
        .filter_map(scraper::ElementRef::wrap)
        .map(|e| e.id())
        .next()
        .unwrap_or_else(|| d.tree.root().id())
}

/// Relies on `ego_tree::NodeRef::children` and `scraper::ElementRef::wrap`:
/// the ids of the node's element children, in document order; empty for an
/// unknown id or a non-element node.
#[verifier::external_body]
fn child_elem_sids(d: &scraper::Html, id: ego_tree::NodeId) -> Vec<ego_tree::NodeId> {
    match d.tree.get(id) {
        Some(node) => node.children().filter_map(scraper::ElementRef::wrap).map(
            |e| e.id(),
        ).collect(),
        None => Vec::new(),
    }
}

/// Relies on `scraper::ElementRef::text`: the concatenation of the
/// element's descendant text nodes in document order.
#[verifier::external_body]
fn elem_text(d: &scraper::Html, id: ego_tree::NodeId) -> String {
    match d.tree.get(id).and_then(scraper::ElementRef::wrap) {
        Some(e) => e.text().collect(),
        None => String::new(),
    }
}

/// Relies on `scraper::ElementRef::html`: the element's outer HTML
/// serialisation.
#[verifier::external_body]
fn elem_outer_html(d: &scraper::Html, id: ego_tree::NodeId) -> String {
    match d.tree.get(id).and_then(scraper::ElementRef::wrap) {
        Some(e) => e.html(),
        None => String::new(),
    }
}

/// Relies on `scraper::node::Element::attrs`: the element's attributes as
/// name-value pairs.
#[verifier::external_body]
fn elem_attr_pairs(d: &scraper::Html, id: ego_tree::NodeId) -> Vec<(String, String)> {
    match d.tree.get(id).and_then(scraper::ElementRef::wrap) {
        Some(e) => e.value().attrs().map(|(k, v)| (k.to_string(), v.to_string())).collect(),
        None => Vec::new(),
    }
}

/// Relies on `scraper::Selector::parse`: it compiles exactly the valid
/// selector strings.
#[verifier::external_body]
pub(crate) fn compile_selector(s: &str) -> (r: Option<scraper::Selector>)
    ensures
        r is Some <==> selector_ok(s@),
{
    scraper::Selector::parse(s).ok()
}

/// Relies on `scraper::ElementRef::select`: the ids of the element's
/// descendants matching the selector, in document order; empty for an
/// unknown id or a non-element node.
#[verifier::external_body]
fn select_sids(d: &scraper::Html, id: ego_tree::NodeId, sel: &scraper::Selector) -> Vec<
    ego_tree::NodeId,
> {
    match d.tree.get(id).and_then(scraper::ElementRef::wrap) {
        Some(e) => e.select(sel).map(|m| m.id()).collect(),
        None => Vec::new(),
    }
}

/// Relies on `ego_tree::NodeId`'s derived `PartialEq`: equality of node
/// ids as values.
#[verifier::external_body]
fn sid_eq(a: ego_tree::NodeId, b: ego_tree::NodeId) -> (r: bool)
    ensures
        r == (a == b),
{
    a == b
}

/// The spec-level content of one element.
pub struct ElemView {
    /// Arena index of the parent element; `None` for the root.
    pub parent: Option<int>,
    /// Concatenated descendant text.
    pub text: Seq<char>,
    /// Outer HTML serialisation.
    pub outer_html: Seq<char>,
    /// Attribute name-value pairs, in document order.
    pub attrs: Seq<(Seq<char>, Seq<char>)>,
}

struct DomElem {
    parent: Option<usize>,
    text: String,
    outer_html: String,
    attrs: Vec<(String, String)>,
    sid: ego_tree::NodeId,
}

impl DomElem {
    spec fn view_elem(&self) -> ElemView {
        ElemView {
            parent: match self.parent {
                Some(p) => Some(p as int),
                None => None,
            },
            text: self.text@,
            outer_html: self.outer_html@,
            attrs: self.attrs@.map_values(|a: (String, String)| (a.0@, a.1@)),
        }
    }
}

/// A parsed page: the element arena plus the underlying document, kept for
/// selector matching.
pub struct Document {
    elems: Vec<DomElem>,
    html: scraper::Html,
}

impl View for Document {
    type V = Seq<ElemView>;

    closed spec fn view(&self) -> Seq<ElemView> {
        self.elems@.map_values(|e: DomElem| e.view_elem())
    }
}

/// The number of proper ancestors of element `i`.
pub open spec fn depth_of(dv: Seq<ElemView>, i: int) -> nat
    decreases i,
{
    if 0 <= i < dv.len() {
        match dv[i].parent {
            Some(p) => if 0 <= p < i {
                1 + depth_of(dv, p)
            } else {
                0
            },
            None => 0,
        }
    } else {
        0
    }
}

/// The `n`-th ancestor of element `i` (0 is `i` itself); meaningful when
/// `depth_of(dv, i) >= n`.
pub open spec fn nth_ancestor_of(dv: Seq<ElemView>, i: int, n: nat) -> int
    decreases n,
{
    if n == 0 {
        i
    } else if 0 <= i < dv.len() {
        match dv[i].parent {
            Some(p) => nth_ancestor_of(dv, p, (n - 1) as nat),
            None => i,
        }
    } else {
        i
    }
}

/// The indices below `upto` whose parent is `par`, ascending: the earlier
/// siblings of an element at `upto` with that parent.
pub open spec fn sibs_below(dv: Seq<ElemView>, par: Option<int>, upto: int) -> Seq<int>
    decreases upto,
{
    if upto <= 0 {
        Seq::empty()
    } else if 0 <= upto - 1 < dv.len() && dv[upto - 1].parent == par {
        sibs_below(dv, par, upto - 1).push(upto - 1)
    } else {
        sibs_below(dv, par, upto - 1)
    }
}

/// The indices in `(from, len)` whose parent is `par`, ascending: the later
/// siblings of an element at `from` with that parent.
pub open spec fn sibs_above(dv: Seq<ElemView>, par: Option<int>, from: int) -> Seq<int> {
    sibs_below(dv, par, dv.len() as int).filter(|j: int| j > from)
}

/// The value of the first attribute with the given name, or the empty
/// string when the element has no such attribute.
pub open spec fn attr_spec(attrs: Seq<(Seq<char>, Seq<char>)>, name: Seq<char>) -> Seq<char>
    decreases attrs.len(),
{
    if attrs.len() == 0 {
        Seq::empty()
    } else if attrs[0].0 == name {
        attrs[0].1
    } else {
        attr_spec(attrs.skip(1), name)
    }
}

/// The cap on arena size; expansion stops there, so parsing cannot grow
/// without bound even on adversarial wrapper behaviour.
pub const NODE_CAP: usize = 2_000_000;

/// Well-formedness of a document model: every element but the first has a
/// parent that precedes it; the first is the root and has none.
pub open spec fn dom_wf(dv: Seq<ElemView>) -> bool {
    &&& dv.len() >= 1
    &&& dv[0].parent is None
    &&& forall|j: int|
        1 <= j < dv.len() ==> ((#[trigger] dv[j].parent) matches Some(p) && 0 <= p < j)
}

impl Document {
    /// The document's model is well formed.
    pub open spec fn wf(&self) -> bool {
        dom_wf(self@)
    }

    /// Parse a page into an element arena rooted at the document's root
    /// element.
    pub fn parse(body: &str) -> (r: Document)
        ensures
            r.wf(),
    {
        let html = parse_html(body);
        let root_sid = doc_root_sid(&html);
        let mut elems: Vec<DomElem> = Vec::new();
        elems.push(
            DomElem {
                parent: None,
                text: elem_text(&html, root_sid),
                outer_html: elem_outer_html(&html, root_sid),
                attrs: elem_attr_pairs(&html, root_sid),
                sid: root_sid,
            },
        );
        let mut i: usize = 0;
        while i < elems.len()
            invariant
                1 <= elems@.len() <= NODE_CAP,
                i <= elems@.len(),
                elems@[0].parent is None,
                forall|j: int|
                    1 <= j < elems@.len() ==> ((#[trigger] elems@[j].parent) matches Some(p) && 0
                        <= p < j),
            decreases NODE_CAP - i,
        {
            let sid = elems[i].sid;
            let kids = child_elem_sids(&html, sid);
            let mut k: usize = 0;
            while k < kids.len()
                invariant
                    1 <= elems@.len() <= NODE_CAP,
                    i < elems@.len(),
                    k <= kids@.len(),
                    elems@[0].parent is None,
                    forall|j: int|
                        1 <= j < elems@.len() ==> ((#[trigger] elems@[j].parent) matches Some(p)
                            && 0 <= p < j),
                decreases kids@.len() - k,
            {
                if elems.len() < NODE_CAP {
                    let kid = kids[k];
                    elems.push(
                        DomElem {
                            parent: Some(i),
                            text: elem_text(&html, kid),
                            outer_html: elem_outer_html(&html, kid),
                            attrs: elem_attr_pairs(&html, kid),
                            sid: kid,
                        },
                    );
                }
                k = k + 1;
            }
            i = i + 1;
        }
        let r = Document { elems, html };
        proof {
            assert(r@.len() == r.elems@.len());
            assert(r@[0].parent is None);
            assert forall|j: int|
                1 <= j < r@.len() implies ((#[trigger] r@[j].parent) matches Some(p) && 0 <= p
                < j) by {
                assert(r@[j] == r.elems@[j].view_elem());
            }
        }
        r
    }

    /// The number of elements.
    pub fn len(&self) -> (r: usize)
        ensures
            r == self@.len(),
    {
        proof {
            assert(self@.len() == self.elems@.len());
        }
        self.elems.len()
    }

    /// The root element's index.
    pub fn root(&self) -> (r: usize)
        requires
            self.wf(),
        ensures
            r == 0,
            r < self@.len(),
    {
        0
    }

    /// The element's concatenated descendant text.
    pub fn text_of(&self, i: usize) -> (r: String)
        requires
            i < self@.len(),
        ensures
            r@ == self@[i as int].text,
    {
        proof {
            assert(self@[i as int] == self.elems@[i as int].view_elem());
        }
        self.elems[i].text.clone()
    }

    /// The element's outer HTML.
    pub fn html_of(&self, i: usize) -> (r: String)
        requires
            i < self@.len(),
        ensures
            r@ == self@[i as int].outer_html,
    {
        proof {
            assert(self@[i as int] == self.elems@[i as int].view_elem());
        }
        self.elems[i].outer_html.clone()
    }

    /// The element's attribute value, or the empty string when absent.
    pub fn attr_of(&self, i: usize, name: &str) -> (r: String)
        requires
            i < self@.len(),
        ensures
            r@ == attr_spec(self@[i as int].attrs, name@),
    {
        proof {
            assert(self@[i as int] == self.elems@[i as int].view_elem());
        }
        let attrs = &self.elems[i].attrs;
        let ghost av = self@[i as int].attrs;
        proof {
            assert(av.len() == attrs@.len());
        }
        let mut k: usize = 0;
        proof {
            assert(av.skip(0) =~= av);
        }
        while k < attrs.len()
            invariant
                k <= attrs@.len(),
                i < self@.len(),
                av == self@[i as int].attrs,
                attrs == &self.elems@[i as int].attrs,
                av == attrs@.map_values(|a: (String, String)| (a.0@, a.1@)),
                av.len() == attrs@.len(),
                attr_spec(av, name@) == attr_spec(av.skip(k as int), name@),
            decreases attrs@.len() - k,
        {
            proof {
                assert(av.skip(k as int)[0] == av[k as int]);
                assert(av[k as int] == (attrs@[k as int].0@, attrs@[k as int].1@));
            }
            if crate::text::str_eq(attrs[k].0.as_str(), name) {
                let out = attrs[k].1.clone();
                proof {
                    assert(av.skip(k as int)[0].0 == name@);
                    assert(attr_spec(av.skip(k as int), name@) == av.skip(k as int)[0].1);
                    assert(av.skip(k as int)[0].1 == attrs@[k as int].1@);
                    assert(out@ == attr_spec(av, name@));
                }
                return out;
            }
            proof {
                assert(av.skip(k as int).skip(1) =~= av.skip(k + 1));
            }
            k = k + 1;
        }
        proof {
            assert(av.skip(k as int) =~= Seq::<(Seq<char>, Seq<char>)>::empty());
        }
        String::new()
    }

    /// The `n`-th ancestor of element `i`, or the number of ancestors it
    /// actually has when that is fewer than `n`.
    pub fn nth_ancestor(&self, i: usize, n: usize) -> (r: Result<usize, usize>)
        requires
            self.wf(),
            i < self@.len(),
        ensures
            match r {
                Ok(j) => depth_of(self@, i as int) >= n && j as int == nth_ancestor_of(
                    self@,
                    i as int,
                    n as nat,
                ) && j < self@.len(),
                Err(d) => d as nat == depth_of(self@, i as int) && d < n,
            },
    {
        let mut cur = i;
        let mut steps: usize = 0;
        while steps < n
            invariant
                self.wf(),
                cur < self@.len(),
                steps <= n,
                depth_of(self@, i as int) == steps + depth_of(self@, cur as int),
                nth_ancestor_of(self@, i as int, steps as nat) == cur as int,
                forall|extra: nat|
                    depth_of(self@, cur as int) >= extra ==> nth_ancestor_of(
                        self@,
                        i as int,
                        (steps + extra) as nat,
                    ) == nth_ancestor_of(self@, cur as int, extra),
            decreases n - steps,
        {
            proof {
                assert(self@[cur as int] == self.elems@[cur as int].view_elem());
            }
            let p = match self.elems[cur].parent {
                Some(p) => p,
                None => {
                    proof {
                        assert(depth_of(self@, cur as int) == 0);
                    }
                    return Err(steps);
                },
            };
            proof {
                if cur != 0 {
                    assert(self@[cur as int].parent matches Some(q) && 0 <= q < cur);
                }
                assert(self@[cur as int].parent == Some(p as int));
                assert(0 <= (p as int) && (p as int) < (cur as int));
                assert(depth_of(self@, cur as int) == 1 + depth_of(self@, p as int));
                assert forall|extra: nat|
                    depth_of(self@, p as int) >= extra implies nth_ancestor_of(
                    self@,
                    i as int,
                    (steps + 1 + extra) as nat,
                ) == nth_ancestor_of(self@, p as int, extra) by {
                    assert(depth_of(self@, cur as int) >= 1 + extra);
                    assert(nth_ancestor_of(self@, i as int, (steps + (1 + extra)) as nat)
                        == nth_ancestor_of(self@, cur as int, (1 + extra) as nat));
                    assert(nth_ancestor_of(self@, cur as int, (1 + extra) as nat)
                        == nth_ancestor_of(self@, p as int, extra));
                }
                assert(depth_of(self@, p as int) >= 0);
                assert(nth_ancestor_of(self@, i as int, (steps + 1) as nat) == nth_ancestor_of(
                    self@,
                    p as int,
                    0,
                ));
            }
            cur = p;
            steps = steps + 1;
        }
        Ok(cur)
    }

    /// The earlier siblings of element `i` (same parent, smaller index),
    /// ascending.
    fn earlier_siblings(&self, i: usize) -> (r: Vec<usize>)
        requires
            self.wf(),
            i < self@.len(),
        ensures
            r@.map_values(|x: usize| x as int) == sibs_below(self@, self@[i as int].parent, i as int),
            forall|k: int| 0 <= k < r@.len() ==> (#[trigger] r@[k]) < self@.len(),
    {
        proof {
            assert(self@[i as int] == self.elems@[i as int].view_elem());
        }
        let par = self.elems[i].parent;
        let ghost pv = self@[i as int].parent;
        let mut r: Vec<usize> = Vec::new();
        let mut j: usize = 0;
        while j < i
            invariant
                self.wf(),
                i < self@.len(),
                j <= i,
                pv == self@[i as int].parent,
                par matches Some(p) ==> pv == Some(p as int),
                par is None ==> pv is None,
                r@.map_values(|x: usize| x as int) =~= sibs_below(self@, pv, j as int),
                forall|k: int| 0 <= k < r@.len() ==> (#[trigger] r@[k]) < self@.len(),
            decreases i - j,
        {
            proof {
                assert(self@[j as int] == self.elems@[j as int].view_elem());
            }
            let same = match (&self.elems[j].parent, &par) {
                (Some(a), Some(b)) => *a == *b,
                (None, None) => true,
                _ => false,
            };
            proof {
                assert(same == (self@[j as int].parent == pv));
            }
            if same {
                r.push(j);
                proof {
                    assert(r@.map_values(|x: usize| x as int) =~= sibs_below(
                        self@,
                        pv,
                        j + 1,
                    ));
                }
            } else {
                proof {
                    assert(r@.map_values(|x: usize| x as int) =~= sibs_below(
                        self@,
                        pv,
                        j + 1,
                    ));
                }
            }
            j = j + 1;
        }
        r
    }

    /// The later siblings of element `i` (same parent, larger index),
    /// ascending.
    fn later_siblings(&self, i: usize) -> (r: Vec<usize>)
        requires
            self.wf(),
            i < self@.len(),
        ensures
            r@.map_values(|x: usize| x as int) == sibs_above(self@, self@[i as int].parent, i as int),
            forall|k: int| 0 <= k < r@.len() ==> (#[trigger] r@[k]) < self@.len(),
    {
        proof {
            assert(self@[i as int] == self.elems@[i as int].view_elem());
        }
        let par = self.elems[i].parent;
        let ghost pv = self@[i as int].parent;
        let n = self.len();
        let mut r: Vec<usize> = Vec::new();
        let mut j: usize = 0;
        while j < n
            invariant
                self.wf(),
                i < self@.len(),
                n == self@.len(),
                j <= n,
                pv == self@[i as int].parent,
                par matches Some(p) ==> pv == Some(p as int),
                par is None ==> pv is None,
                r@.map_values(|x: usize| x as int) =~= sibs_below(self@, pv, j as int).filter(
                    |q: int| q > i as int,
                ),
                forall|k: int| 0 <= k < r@.len() ==> (#[trigger] r@[k]) < self@.len(),
            decreases n - j,
        {
            proof {
                assert(self@[j as int] == self.elems@[j as int].view_elem());
            }
            let same = match (&self.elems[j].parent, &par) {
                (Some(a), Some(b)) => *a == *b,
                (None, None) => true,
                _ => false,
            };
            proof {
                assert(same == (self@[j as int].parent == pv));
            }
            if same && j > i {
                r.push(j);
            }
            proof {
                reveal(Seq::filter);
                let pred = |q: int| q > i as int;
                let below = sibs_below(self@, pv, j as int);
                let below1 = sibs_below(self@, pv, j + 1);
                if self@[j as int].parent == pv {
                    assert(below1 == below.push(j as int));
                    assert(below.push(j as int).drop_last() =~= below);
                    assert(below.push(j as int).last() == j as int);
                    if j > i {
                        assert(below1.filter(pred) == below.filter(pred).push(j as int));
                    } else {
                        assert(below1.filter(pred) == below.filter(pred));
                    }
                } else {
                    assert(below1 == below);
                }
                assert(r@.map_values(|x: usize| x as int) =~= below1.filter(pred));
            }
            j = j + 1;
        }
        proof {
            assert(sibs_below(self@, pv, self@.len() as int).filter(|q: int| q > i as int)
                =~= sibs_above(self@, pv, i as int));
        }
        r
    }

    /// The `n`-th previous element sibling (1 is the nearest), or the
    /// number of previous siblings when there are fewer than `n`.
    pub fn kth_prev(&self, i: usize, n: usize) -> (r: Result<usize, usize>)
        requires
            self.wf(),
            i < self@.len(),
        ensures
            match r {
                Ok(j) => {
                    let sibs = sibs_below(self@, self@[i as int].parent, i as int);
                    n >= 1 && sibs.len() >= n && j as int == sibs[sibs.len() - n] && j
                        < self@.len()
                },
                Err(c) => c as nat == sibs_below(
                    self@,
                    self@[i as int].parent,
                    i as int,
                ).len() && (c < n || n == 0),
            },
    {
        let sibs = self.earlier_siblings(i);
        proof {
            assert(sibs@.map_values(|x: usize| x as int).len() == sibs@.len());
        }
        if n == 0 || sibs.len() < n {
            Err(sibs.len())
        } else {
            let j = sibs[sibs.len() - n];
            proof {
                assert(sibs@.map_values(|x: usize| x as int)[sibs@.len() - n] == j as int);
            }
            Ok(j)
        }
    }

    /// The `n`-th following element sibling (1 is the nearest), or the
    /// number of following siblings when there are fewer than `n`.
    pub fn kth_next(&self, i: usize, n: usize) -> (r: Result<usize, usize>)
        requires
            self.wf(),
            i < self@.len(),
        ensures
            match r {
                Ok(j) => {
                    let sibs = sibs_above(self@, self@[i as int].parent, i as int);
                    n >= 1 && sibs.len() >= n && j as int == sibs[n - 1] && j < self@.len()
                },
                Err(c) => c as nat == sibs_above(
                    self@,
                    self@[i as int].parent,
                    i as int,
                ).len() && (c < n || n == 0),
            },
    {
        let sibs = self.later_siblings(i);
        proof {
            assert(sibs@.map_values(|x: usize| x as int).len() == sibs@.len());
        }
        if n == 0 || sibs.len() < n {
            Err(sibs.len())
        } else {
            let j = sibs[n - 1];
            proof {
                assert(sibs@.map_values(|x: usize| x as int)[n - 1] == j as int);
            }
            Ok(j)
        }
    }

    /// The descendants of element `i` matching the compiled selector, in
    /// document order, as arena indices. Matches that cannot be located in
    /// the arena (beyond the arena cap) are dropped.
    pub fn select_from(&self, i: usize, sel: &scraper::Selector) -> (r: Vec<usize>)
        requires
            self.wf(),
            i < self@.len(),
        ensures
            forall|k: int| 0 <= k < r@.len() ==> (#[trigger] r@[k]) < self@.len(),
    {
        proof {
            assert(self@.len() == self.elems@.len());
        }
        let sids = select_sids(&self.html, self.elems[i].sid, sel);
        let mut r: Vec<usize> = Vec::new();
        let mut k: usize = 0;
        while k < sids.len()
            invariant
                k <= sids@.len(),
                self@.len() == self.elems@.len(),
                forall|q: int| 0 <= q < r@.len() ==> (#[trigger] r@[q]) < self@.len(),
            decreases sids@.len() - k,
        {
            let sid = sids[k];
            let mut j: usize = 0;
            let mut found: bool = false;
            let mut found_at: usize = 0;
            while j < self.elems.len()
                invariant
                    j <= self.elems@.len(),
                    self@.len() == self.elems@.len(),
                    found ==> found_at < self@.len(),
                decreases self.elems@.len() - j,
            {
                if !found && sid_eq(self.elems[j].sid, sid) {
                    found = true;
                    found_at = j;
                }
                j = j + 1;
            }
            if found {
                r.push(found_at);
            }
            k = k + 1;
        }
        r
    }
}

} // verus!
