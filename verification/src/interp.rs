//! The command interpreter's string side: dynamic-parameter resolution and
//! the text pipeline, which runs a script's transforms and filters over a
//! single seed string. Every step is pinned to a spec function, so a text
//! run is a mathematical function of the script, the seed and the variable
//! store.

use vstd::prelude::*;

use crate::errors::{CrawlerErr, ErrView};
use crate::regex_ops::{
    regex_compile, regex_extract, regex_find_concat, regex_is_match, regex_matches, regex_ok,
    regex_pattern, regex_replace, regex_replace_all,
};
use crate::dom::{attr_spec, depth_of, nth_ancestor_of, selector_ok, sibs_above, sibs_below, Document, ElemView};
use crate::script::{CmdView, Command, CrawlerScript, Param, ParamView};
use crate::text::{
    chars_to_string, insert_chars, insert_spec, lower_of, replace_chars, replace_spec, str_chars,
    to_lowercase_str, to_uppercase_str, upper_of,
};
use crate::vars::VarStore;

verus! {

/// What a parameter denotes under a variable store: a literal denotes
/// itself; `${name}` denotes the single value of `name`, and fails when the
/// name is absent, empty, or holds several values.
pub open spec fn resolve_spec(p: ParamView, m: Map<Seq<char>, Seq<Seq<char>>>) -> Result<
    Seq<char>,
    ErrView,
> {
    match p {
        ParamView::Static(s) => Ok(s),
        ParamView::Dynamic(name) => {
            if !m.contains_key(name) {
                Err(ErrView::DynNotYetInitialised(name))
            } else if m[name].len() == 0 {
                Err(ErrView::DynNoValidData(name))
            } else if m[name].len() > 1 {
                Err(ErrView::DynMultipleResults(name))
            } else {
                Ok(m[name][0])
            }
        },
    }
}

impl Param {
    /// The parameter's value under `vars`; dynamic parameters must be bound
    /// to exactly one value.
    pub fn get_value(&self, vars: &VarStore) -> (r: Result<String, CrawlerErr>)
        requires
            vars.wf(),
        ensures
            match r {
                Ok(s) => resolve_spec(self@, vars@) == Ok::<Seq<char>, ErrView>(s@),
                Err(e) => resolve_spec(self@, vars@) == Err::<Seq<char>, ErrView>(e@),
            },
    {
        match self {
            Param::StaticStr(s) => Ok(s.clone()),
            Param::DynamicStr(name) => {
                match vars.get(name.as_str()) {
                    None => Err(CrawlerErr::DynNotYetInitialised(name.clone())),
                    Some(values) => {
                        proof {
                            assert(values.deep_view().len() == values@.len());
                        }
                        if values.len() == 0 {
                            Err(CrawlerErr::DynNoValidData(name.clone()))
                        } else if values.len() > 1 {
                            Err(CrawlerErr::DynMultipleResults(name.clone()))
                        } else {
                            proof {
                                assert(values.deep_view()[0] == values@[0]@);
                            }
                            Ok(values[0].clone())
                        }
                    },
                }
            },
        }
    }
}

/// One text-pipeline step: transforms rewrite the string; conditions and
/// DOM commands leave a seed string unchanged.
pub open spec fn text_step_spec(c: CmdView, s: Seq<char>, m: Map<Seq<char>, Seq<Seq<char>>>)
    -> Result<Seq<char>, ErrView> {
    match c {
        CmdView::Replace(a, b) => match resolve_spec(a, m) {
            Err(e) => Err(e),
            Ok(f) => match resolve_spec(b, m) {
                Err(e) => Err(e),
                Ok(t) => Ok(replace_spec(s, f, t)),
            },
        },
        CmdView::Uppercase => Ok(upper_of(s)),
        CmdView::Lowercase => Ok(lower_of(s)),
        CmdView::Insert(n, p) => match resolve_spec(p, m) {
            Err(e) => Err(e),
            Ok(v) => Ok(insert_spec(s, n, v)),
        },
        CmdView::Prepend(p) => match resolve_spec(p, m) {
            Err(e) => Err(e),
            Ok(v) => Ok(v + s),
        },
        CmdView::Append(p) => match resolve_spec(p, m) {
            Err(e) => Err(e),
            Ok(v) => Ok(s + v),
        },
        CmdView::Delete(p) => match resolve_spec(p, m) {
            Err(e) => Err(e),
            Ok(v) => Ok(replace_spec(s, v, Seq::empty())),
        },
        CmdView::RegexExtract(p) => match resolve_spec(p, m) {
            Err(e) => Err(e),
            Ok(pat) => if regex_ok(pat) {
                Ok(regex_find_concat(pat, s))
            } else {
                Err(ErrView::RegexParseError(pat))
            },
        },
        CmdView::RegexReplace(p, rp) => match resolve_spec(p, m) {
            Err(e) => Err(e),
            Ok(pat) => match resolve_spec(rp, m) {
                Err(e) => Err(e),
                Ok(rep) => if regex_ok(pat) {
                    Ok(regex_replace_all(pat, rep, s))
                } else {
                    Err(ErrView::RegexParseError(pat))
                },
            },
        },
        _ => Ok(s),
    }
}

/// A whole text run: the steps applied in source order, stopping at the
/// first failure.
pub open spec fn text_run_spec(
    cmds: Seq<CmdView>,
    s: Seq<char>,
    m: Map<Seq<char>, Seq<Seq<char>>>,
) -> Result<Seq<char>, ErrView>
    decreases cmds.len(),
{
    if cmds.len() == 0 {
        Ok(s)
    } else {
        match text_step_spec(cmds[0], s, m) {
            Err(e) => Err(e),
            Ok(s2) => text_run_spec(cmds.skip(1), s2, m),
        }
    }
}

/// One step, computed.
fn text_step(c: &Command, s: &str, vars: &VarStore) -> (r: Result<String, CrawlerErr>)
    requires
        vars.wf(),
    ensures
        match r {
            Ok(out) => text_step_spec(c@, s@, vars@) == Ok::<Seq<char>, ErrView>(out@),
            Err(e) => text_step_spec(c@, s@, vars@) == Err::<Seq<char>, ErrView>(e@),
        },
{
    match c {
        Command::Replace(a, b) => {
            let f = a.get_value(vars)?;
            let t = b.get_value(vars)?;
            let sv = str_chars(s);
            let fv = str_chars(f.as_str());
            let tv = str_chars(t.as_str());
            Ok(chars_to_string(&replace_chars(&sv, &fv, &tv)))
        },
        Command::Uppercase => Ok(to_uppercase_str(s)),
        Command::Lowercase => Ok(to_lowercase_str(s)),
        Command::Insert(n, p) => {
            let v = p.get_value(vars)?;
            let sv = str_chars(s);
            let pv = str_chars(v.as_str());
            Ok(chars_to_string(&insert_chars(&sv, *n, &pv)))
        },
        Command::Prepend(p) => {
            let v = p.get_value(vars)?;
            let sv = str_chars(s);
            let pv = str_chars(v.as_str());
            let mut out = pv;
            let mut k: usize = 0;
            while k < sv.len()
                invariant
                    k <= sv@.len(),
                    out@ == pv@ + sv@.take(k as int),
                decreases sv@.len() - k,
            {
                out.push(sv[k]);
                assert(out@ =~= pv@ + sv@.take(k + 1));
                k = k + 1;
            }
            assert(out@ =~= pv@ + sv@);
            Ok(chars_to_string(&out))
        },
        Command::Append(p) => {
            let v = p.get_value(vars)?;
            let mut out = String::new();
            out.append(s);
            out.append(v.as_str());
            Ok(out)
        },
        Command::Delete(p) => {
            let v = p.get_value(vars)?;
            let sv = str_chars(s);
            let pv = str_chars(v.as_str());
            let empty: Vec<char> = Vec::new();
            Ok(chars_to_string(&replace_chars(&sv, &pv, &empty)))
        },
        Command::RegexExtract(p) => {
            let pat = p.get_value(vars)?;
            match regex_compile(pat.as_str()) {
                None => Err(CrawlerErr::RegexParseError(pat)),
                Some(re) => Ok(regex_extract(&re, s)),
            }
        },
        Command::RegexReplace(p, rp) => {
            let pat = p.get_value(vars)?;
            let rep = rp.get_value(vars)?;
            match regex_compile(pat.as_str()) {
                None => Err(CrawlerErr::RegexParseError(pat)),
                Some(re) => Ok(regex_replace(&re, s, rep.as_str())),
            }
        },
        _ => {
            let mut out = String::new();
            out.append(s);
            Ok(out)
        },
    }
}

impl CrawlerScript {
    /// Run this script's commands over a seed string. Transforms rewrite
    /// the string, in source order; conditions and DOM commands leave it
    /// unchanged. The result is a function of the script, the seed, and the
    /// variable store.
    pub fn get_text_value(&self, text: &str, vars: &VarStore) -> (r: Result<String, CrawlerErr>)
        requires
            vars.wf(),
        ensures
            match r {
                Ok(out) => text_run_spec(self.commands.deep_view(), text@, vars@) == Ok::<
                    Seq<char>,
                    ErrView,
                >(out@),
                Err(e) => text_run_spec(self.commands.deep_view(), text@, vars@) == Err::<
                    Seq<char>,
                    ErrView,
                >(e@),
            },
    {
        let ghost dv = self.commands.deep_view();
        proof {
            assert(dv.len() == self.commands@.len());
            assert(dv.skip(0) =~= dv);
        }
        let mut cur = String::new();
        cur.append(text);
        let mut i: usize = 0;
        while i < self.commands.len()
            invariant
                i <= self.commands@.len(),
                vars.wf(),
                dv == self.commands.deep_view(),
                dv.len() == self.commands@.len(),
                text_run_spec(dv, text@, vars@) == text_run_spec(
                    dv.skip(i as int),
                    cur@,
                    vars@,
                ),
            decreases self.commands@.len() - i,
        {
            proof {
                assert(dv.skip(i as int)[0] == dv[i as int]);
                assert(dv[i as int] == self.commands@[i as int]@);
            }
            let next = text_step(&self.commands[i], cur.as_str(), vars)?;
            proof {
                assert(dv.skip(i as int).skip(1) =~= dv.skip(i + 1));
            }
            cur = next;
            i = i + 1;
        }
        proof {
            assert(dv.skip(i as int) =~= Seq::<CmdView>::empty());
        }
        Ok(cur)
    }
}

/// A pipeline pair: the string channel and the element channel (an arena
/// index into the current document).
pub type PairV = (Seq<char>, int);

/// The view of an executable pair list.
pub open spec fn pairs_view(ps: Seq<(String, usize)>) -> Seq<PairV> {
    ps.map_values(|p: (String, usize)| (p.0@, p.1 as int))
}

/// The initial pipeline state: one pair per root element, with an empty
/// string channel.
pub open spec fn init_pairs(roots: Seq<usize>) -> Seq<PairV> {
    roots.map_values(|i: usize| (Seq::<char>::empty(), i as int))
}

/// The initial pipeline state over spec-level element indices.
pub open spec fn init_pairs_at(roots: Seq<int>) -> Seq<PairV> {
    roots.map_values(|i: int| (Seq::<char>::empty(), i))
}

/// The string channels of a final state: the captured values.
pub open spec fn strings_of(ps: Seq<PairV>) -> Seq<Seq<char>> {
    ps.map_values(|p: PairV| p.0)
}

/// The element channels of a final state: the refined elements.
pub open spec fn elems_of(ps: Seq<PairV>) -> Seq<int> {
    ps.map_values(|p: PairV| p.1)
}

/// `parent(n)` over a state: each element is replaced by its `n`-th
/// ancestor; the first element with fewer than `n` ancestors fails with
/// how many it has.
pub open spec fn parent_map(dv: Seq<ElemView>, st: Seq<PairV>, n: nat) -> Result<
    Seq<PairV>,
    ErrView,
>
    decreases st.len(),
{
    if st.len() == 0 {
        Ok(Seq::empty())
    } else {
        let i = st[0].1;
        if depth_of(dv, i) < n {
            Err(ErrView::ParentNodeOverflow(n, depth_of(dv, i)))
        } else {
            match parent_map(dv, st.skip(1), n) {
                Err(e) => Err(e),
                Ok(rest) => Ok(seq![(st[0].0, nth_ancestor_of(dv, i, n))] + rest),
            }
        }
    }
}

/// The filter an `equals` command applies to the string channel.
pub open spec fn eq_pred(v: Seq<char>) -> spec_fn(PairV) -> bool {
    |q: PairV| q.0 == v
}

/// The filter a `regex_match` command applies to the string channel.
pub open spec fn match_pred(pat: Seq<char>) -> spec_fn(PairV) -> bool {
    |q: PairV| regex_is_match(pat, q.0)
}

/// The accessor functions: outer HTML, concatenated text, one attribute.
pub open spec fn outer_fn() -> spec_fn(ElemView) -> Seq<char> {
    |e: ElemView| e.outer_html
}

pub open spec fn text_fn() -> spec_fn(ElemView) -> Seq<char> {
    |e: ElemView| e.text
}

pub open spec fn attr_fn(v: Seq<char>) -> spec_fn(ElemView) -> Seq<char> {
    |e: ElemView| attr_spec(e.attrs, v)
}

/// `prev(n)` over a state: each element is replaced by its `n`-th previous
/// element sibling (1 is the nearest); the first element with fewer fails
/// with how many it has. `prev(0)` asks for no sibling at all and fails
/// likewise.
pub open spec fn prev_map(dv: Seq<ElemView>, st: Seq<PairV>, n: nat) -> Result<
    Seq<PairV>,
    ErrView,
>
    decreases st.len(),
{
    if st.len() == 0 {
        Ok(Seq::empty())
    } else {
        let i = st[0].1;
        let sibs = sibs_below(dv, dv[i].parent, i);
        if n == 0 || sibs.len() < n {
            Err(ErrView::PrevNodeOverflow(n, sibs.len()))
        } else {
            match prev_map(dv, st.skip(1), n) {
                Err(e) => Err(e),
                Ok(rest) => Ok(seq![(st[0].0, sibs[sibs.len() - n])] + rest),
            }
        }
    }
}

/// `nth(n)` over a state: each element is replaced by its `n`-th following
/// element sibling (1 is the nearest); overflow is reported as for `prev`.
pub open spec fn next_map(dv: Seq<ElemView>, st: Seq<PairV>, n: nat) -> Result<
    Seq<PairV>,
    ErrView,
>
    decreases st.len(),
{
    if st.len() == 0 {
        Ok(Seq::empty())
    } else {
        let i = st[0].1;
        let sibs = sibs_above(dv, dv[i].parent, i);
        if n == 0 || sibs.len() < n {
            Err(ErrView::PrevNodeOverflow(n, sibs.len()))
        } else {
            match next_map(dv, st.skip(1), n) {
                Err(e) => Err(e),
                Ok(rest) => Ok(seq![(st[0].0, sibs[n - 1])] + rest),
            }
        }
    }
}

/// An accessor over a state: the string channel of each pair becomes a
/// function of its element.
pub open spec fn accessor_map(dv: Seq<ElemView>, st: Seq<PairV>, f: spec_fn(ElemView) -> Seq<
    char,
>) -> Seq<PairV> {
    st.map_values(|p: PairV| (f(dv[p.1]), p.1))
}

/// A transform over a state: the text step applied to each string channel,
/// elements unchanged; the first failing pair decides the error.
pub open spec fn transform_map(c: CmdView, m: Map<Seq<char>, Seq<Seq<char>>>, st: Seq<PairV>)
    -> Result<Seq<PairV>, ErrView>
    decreases st.len(),
{
    if st.len() == 0 {
        Ok(Seq::empty())
    } else {
        match text_step_spec(c, st[0].0, m) {
            Err(e) => Err(e),
            Ok(s2) => match transform_map(c, m, st.skip(1)) {
                Err(e) => Err(e),
                Ok(rest) => Ok(seq![(s2, st[0].1)] + rest),
            },
        }
    }
}

/// The shape every selector answer has: one part per input pair, each part
/// a list of pairs with empty string channels and in-bounds elements.
pub open spec fn sel_parts_ok(dv: Seq<ElemView>, parts: Seq<Seq<PairV>>) -> bool {
    forall|a: int, b: int|
        0 <= a < parts.len() && 0 <= b < parts[a].len() ==> (#[trigger] parts[a][b]).0
            == Seq::<char>::empty() && 0 <= parts[a][b].1 < dv.len()
}

/// How a pipeline run relates its inputs to its outcome. The state is the
/// ordered pair list; an empty state ends the run at once with an empty
/// result, so no later command observes anything. Every command except
/// `selector` is a function of the document model, the variable store and
/// the state; a `selector` answer is any per-pair concatenation of
/// in-bounds, string-cleared pairs (what the CSS engine matched).
pub open spec fn pipeline_rel(
    cmds: Seq<CmdView>,
    dv: Seq<ElemView>,
    m: Map<Seq<char>, Seq<Seq<char>>>,
    st: Seq<PairV>,
    r: Result<Seq<PairV>, ErrView>,
) -> bool
    decreases cmds.len(),
{
    if st.len() == 0 {
        r == Ok::<Seq<PairV>, ErrView>(Seq::<PairV>::empty())
    } else if cmds.len() == 0 {
        r == Ok::<Seq<PairV>, ErrView>(st)
    } else {
        let rest = cmds.skip(1);
        match cmds[0] {
            CmdView::Selector(p) => match resolve_spec(p, m) {
                Err(e) => r == Err::<Seq<PairV>, ErrView>(e),
                Ok(v) => if !selector_ok(v) {
                    r == Err::<Seq<PairV>, ErrView>(ErrView::SelectorError(v))
                } else {
                    exists|parts: Seq<Seq<PairV>>|
                        {
                            &&& parts.len() == st.len()
                            &&& #[trigger] sel_parts_ok(dv, parts)
                            &&& pipeline_rel(rest, dv, m, parts.flatten(), r)
                        }
                },
            },
            CmdView::Equals(p) => match resolve_spec(p, m) {
                Err(e) => r == Err::<Seq<PairV>, ErrView>(e),
                Ok(v) => pipeline_rel(rest, dv, m, st.filter(eq_pred(v)), r),
            },
            CmdView::RegexMatch(p) => match resolve_spec(p, m) {
                Err(e) => r == Err::<Seq<PairV>, ErrView>(e),
                Ok(pat) => if !regex_ok(pat) {
                    r == Err::<Seq<PairV>, ErrView>(ErrView::RegexParseError(pat))
                } else {
                    pipeline_rel(rest, dv, m, st.filter(match_pred(pat)), r)
                },
            },
            CmdView::Parent(n) => match parent_map(dv, st, n) {
                Err(e) => r == Err::<Seq<PairV>, ErrView>(e),
                Ok(st2) => pipeline_rel(rest, dv, m, st2, r),
            },
            CmdView::Prev(n) => match prev_map(dv, st, n) {
                Err(e) => r == Err::<Seq<PairV>, ErrView>(e),
                Ok(st2) => pipeline_rel(rest, dv, m, st2, r),
            },
            CmdView::Nth(n) => match next_map(dv, st, n) {
                Err(e) => r == Err::<Seq<PairV>, ErrView>(e),
                Ok(st2) => pipeline_rel(rest, dv, m, st2, r),
            },
            CmdView::Html => pipeline_rel(rest, dv, m, accessor_map(dv, st, outer_fn()), r),
            CmdView::Val => pipeline_rel(rest, dv, m, accessor_map(dv, st, text_fn()), r),
            CmdView::Attr(p) => match resolve_spec(p, m) {
                Err(e) => r == Err::<Seq<PairV>, ErrView>(e),
                Ok(v) => pipeline_rel(rest, dv, m, accessor_map(dv, st, attr_fn(v)), r),
            },
            _ => match transform_map(cmds[0], m, st) {
                Err(e) => r == Err::<Seq<PairV>, ErrView>(e),
                Ok(st2) => pipeline_rel(rest, dv, m, st2, r),
            },
        }
    }
}

/// Once a pipeline's pair set is empty, every continuation yields the empty
/// result: later commands observe nothing and contribute nothing.
pub proof fn lemma_short_circuit_empty(
    cmds: Seq<CmdView>,
    dv: Seq<ElemView>,
    m: Map<Seq<char>, Seq<Seq<char>>>,
    r: Result<Seq<PairV>, ErrView>,
)
    requires
        pipeline_rel(cmds, dv, m, Seq::<PairV>::empty(), r),
    ensures
        r == Ok::<Seq<PairV>, ErrView>(Seq::<PairV>::empty()),
{
}

/// A selector that matches nothing is not an error: whenever the parameter
/// resolves and the selector compiles, the empty answer yields the empty
/// result, never a failure.
pub proof fn lemma_empty_match_soft(
    p: ParamView,
    rest: Seq<CmdView>,
    dv: Seq<ElemView>,
    m: Map<Seq<char>, Seq<Seq<char>>>,
    st: Seq<PairV>,
)
    requires
        st.len() > 0,
        resolve_spec(p, m) is Ok,
        selector_ok(resolve_spec(p, m)->Ok_0),
    ensures
        pipeline_rel(
            seq![CmdView::Selector(p)] + rest,
            dv,
            m,
            st,
            Ok::<Seq<PairV>, ErrView>(Seq::<PairV>::empty()),
        ),
{
    let cmds = seq![CmdView::Selector(p)] + rest;
    let parts = Seq::<Seq<PairV>>::new(st.len(), |k: int| Seq::<PairV>::empty());
    assert(sel_parts_ok(dv, parts));
    lemma_flatten_all_empty(parts);
    assert(pipeline_rel(cmds.skip(1), dv, m, parts.flatten(), Ok::<Seq<PairV>, ErrView>(
        Seq::<PairV>::empty(),
    )));
    assert(cmds[0] == CmdView::Selector(p));
}

/// Flattening all-empty parts gives the empty sequence.
proof fn lemma_flatten_all_empty(parts: Seq<Seq<PairV>>)
    requires
        forall|k: int| 0 <= k < parts.len() ==> (#[trigger] parts[k]).len() == 0,
    ensures
        parts.flatten().len() == 0,
    decreases parts.len(),
{
    reveal(Seq::flatten);
    if parts.len() > 0 {
        assert(parts[0].len() == 0);
        lemma_flatten_all_empty(parts.skip(1));
        assert(parts.flatten() == parts[0] + parts.skip(1).flatten());
        assert(parts.flatten().len() == 0);
    }
}

/// A result with a prefix prepended to its success value.
pub open spec fn res_prepend(pre: Seq<PairV>, r: Result<Seq<PairV>, ErrView>) -> Result<
    Seq<PairV>,
    ErrView,
> {
    match r {
        Ok(s) => Ok(pre + s),
        Err(e) => Err(e),
    }
}

/// All elements of a state lie inside the document.
pub open spec fn pairs_bounded(st: Seq<PairV>, len: int) -> bool {
    forall|k: int| 0 <= k < st.len() ==> 0 <= (#[trigger] st[k]).1 < len
}

/// Flattening distributes over appending one part at the end.
proof fn lemma_flatten_push(parts: Seq<Seq<PairV>>, x: Seq<PairV>)
    ensures
        parts.push(x).flatten() == parts.flatten() + x,
    decreases parts.len(),
{
    if parts.len() == 0 {
        assert(parts.push(x).first() == x);
        assert(parts.push(x).drop_first() =~= Seq::<Seq<PairV>>::empty());
        assert(parts.push(x).flatten() == parts.push(x).first() + parts.push(
            x,
        ).drop_first().flatten());
        assert(parts.push(x).flatten() =~= parts.flatten() + x);
    } else {
        lemma_flatten_push(parts.drop_first(), x);
        assert(parts.push(x).first() == parts.first());
        assert(parts.push(x).drop_first() =~= parts.drop_first().push(x));
        assert(parts.push(x).flatten() == parts.push(x).first() + parts.push(
            x,
        ).drop_first().flatten());
        assert(parts.flatten() == parts.first() + parts.drop_first().flatten());
        assert(parts.push(x).flatten() =~= parts.flatten() + x);
    }
}

fn parent_step(doc: &Document, st: &Vec<(String, usize)>, n: usize) -> (r: Result<
    Vec<(String, usize)>,
    CrawlerErr,
>)
    requires
        doc.wf(),
        pairs_bounded(pairs_view(st@), doc@.len() as int),
    ensures
        match r {
            Ok(out) => parent_map(doc@, pairs_view(st@), n as nat) == Ok::<Seq<PairV>, ErrView>(
                pairs_view(out@),
            ) && pairs_bounded(pairs_view(out@), doc@.len() as int) && out@.len() == st@.len(),
            Err(e) => parent_map(doc@, pairs_view(st@), n as nat) == Err::<Seq<PairV>, ErrView>(
                e@,
            ),
        },
{
    let ghost dv = doc@;
    let ghost stv = pairs_view(st@);
    proof {
        assert(stv.len() == st@.len());
        assert(stv.skip(0) =~= stv);
        if parent_map(dv, stv, n as nat) is Ok {
            assert(Seq::<PairV>::empty() + parent_map(dv, stv, n as nat)->Ok_0 =~= parent_map(
                dv,
                stv,
                n as nat,
            )->Ok_0);
        }
    }
    let mut out: Vec<(String, usize)> = Vec::new();
    let mut k: usize = 0;
    while k < st.len()
        invariant
            k <= st@.len(),
            doc.wf(),
            dv == doc@,
            stv == pairs_view(st@),
            stv.len() == st@.len(),
            pairs_bounded(stv, dv.len() as int),
            pairs_bounded(pairs_view(out@), dv.len() as int),
            out@.len() == k,
            parent_map(dv, stv, n as nat) == res_prepend(
                pairs_view(out@),
                parent_map(dv, stv.skip(k as int), n as nat),
            ),
        decreases st@.len() - k,
    {
        proof {
            assert(stv.skip(k as int)[0] == stv[k as int]);
            assert(stv[k as int] == (st@[k as int].0@, st@[k as int].1 as int));
        }
        let idx = st[k].1;
        match doc.nth_ancestor(idx, n) {
            Err(d) => {
                proof {
                    assert(parent_map(dv, stv.skip(k as int), n as nat) == Err::<
                        Seq<PairV>,
                        ErrView,
                    >(ErrView::ParentNodeOverflow(n as nat, d as nat)));
                }
                return Err(CrawlerErr::ParentNodeOverflow(n, d));
            },
            Ok(j) => {
                let ghost pre = pairs_view(out@);
                out.push((st[k].0.clone(), j));
                proof {
                    assert(pairs_view(out@) =~= pre.push((st@[k as int].0@, j as int)));
                    let tail = parent_map(dv, stv.skip(k + 1), n as nat);
                    assert(stv.skip(k as int).skip(1) =~= stv.skip(k + 1));
                    assert(parent_map(dv, stv.skip(k as int), n as nat) == (match tail {
                        Err(e) => Err(e),
                        Ok(rest) => Ok(
                            seq![(stv[k as int].0, nth_ancestor_of(dv, stv[k as int].1, n as nat))]
                                + rest,
                        ),
                    }));
                    if tail is Ok {
                        assert(pre + (seq![(stv[k as int].0, j as int)] + tail->Ok_0) =~= pairs_view(
                            out@,
                        ) + tail->Ok_0);
                    }
                }
            },
        }
        k = k + 1;
    }
    proof {
        assert(stv.skip(k as int) =~= Seq::<PairV>::empty());
        assert(pairs_view(out@) + Seq::<PairV>::empty() =~= pairs_view(out@));
    }
    Ok(out)
}

fn prev_step(doc: &Document, st: &Vec<(String, usize)>, n: usize) -> (r: Result<
    Vec<(String, usize)>,
    CrawlerErr,
>)
    requires
        doc.wf(),
        pairs_bounded(pairs_view(st@), doc@.len() as int),
    ensures
        match r {
            Ok(out) => prev_map(doc@, pairs_view(st@), n as nat) == Ok::<Seq<PairV>, ErrView>(
                pairs_view(out@),
            ) && pairs_bounded(pairs_view(out@), doc@.len() as int) && out@.len() == st@.len(),
            Err(e) => prev_map(doc@, pairs_view(st@), n as nat) == Err::<Seq<PairV>, ErrView>(e@),
        },
{
    let ghost dv = doc@;
    let ghost stv = pairs_view(st@);
    proof {
        assert(stv.len() == st@.len());
        assert(stv.skip(0) =~= stv);
        if prev_map(dv, stv, n as nat) is Ok {
            assert(Seq::<PairV>::empty() + prev_map(dv, stv, n as nat)->Ok_0 =~= prev_map(
                dv,
                stv,
                n as nat,
            )->Ok_0);
        }
    }
    let mut out: Vec<(String, usize)> = Vec::new();
    let mut k: usize = 0;
    while k < st.len()
        invariant
            k <= st@.len(),
            doc.wf(),
            dv == doc@,
            stv == pairs_view(st@),
            stv.len() == st@.len(),
            pairs_bounded(stv, dv.len() as int),
            pairs_bounded(pairs_view(out@), dv.len() as int),
            out@.len() == k,
            prev_map(dv, stv, n as nat) == res_prepend(
                pairs_view(out@),
                prev_map(dv, stv.skip(k as int), n as nat),
            ),
        decreases st@.len() - k,
    {
        proof {
            assert(stv.skip(k as int)[0] == stv[k as int]);
            assert(stv[k as int] == (st@[k as int].0@, st@[k as int].1 as int));
        }
        let idx = st[k].1;
        match doc.kth_prev(idx, n) {
            Err(c) => {
                proof {
                    assert(prev_map(dv, stv.skip(k as int), n as nat) == Err::<
                        Seq<PairV>,
                        ErrView,
                    >(ErrView::PrevNodeOverflow(n as nat, c as nat)));
                }
                return Err(CrawlerErr::PrevNodeOverflow(n, c));
            },
            Ok(j) => {
                let ghost pre = pairs_view(out@);
                out.push((st[k].0.clone(), j));
                proof {
                    assert(pairs_view(out@) =~= pre.push((st@[k as int].0@, j as int)));
                    let tail = prev_map(dv, stv.skip(k + 1), n as nat);
                    assert(stv.skip(k as int).skip(1) =~= stv.skip(k + 1));
                    if tail is Ok {
                        assert(pre + (seq![(stv[k as int].0, j as int)] + tail->Ok_0) =~= pairs_view(
                            out@,
                        ) + tail->Ok_0);
                    }
                }
            },
        }
        k = k + 1;
    }
    proof {
        assert(stv.skip(k as int) =~= Seq::<PairV>::empty());
        assert(pairs_view(out@) + Seq::<PairV>::empty() =~= pairs_view(out@));
    }
    Ok(out)
}

fn next_step(doc: &Document, st: &Vec<(String, usize)>, n: usize) -> (r: Result<
    Vec<(String, usize)>,
    CrawlerErr,
>)
    requires
        doc.wf(),
        pairs_bounded(pairs_view(st@), doc@.len() as int),
    ensures
        match r {
            Ok(out) => next_map(doc@, pairs_view(st@), n as nat) == Ok::<Seq<PairV>, ErrView>(
                pairs_view(out@),
            ) && pairs_bounded(pairs_view(out@), doc@.len() as int) && out@.len() == st@.len(),
            Err(e) => next_map(doc@, pairs_view(st@), n as nat) == Err::<Seq<PairV>, ErrView>(e@),
        },
{
    let ghost dv = doc@;
    let ghost stv = pairs_view(st@);
    proof {
        assert(stv.len() == st@.len());
        assert(stv.skip(0) =~= stv);
        if next_map(dv, stv, n as nat) is Ok {
            assert(Seq::<PairV>::empty() + next_map(dv, stv, n as nat)->Ok_0 =~= next_map(
                dv,
                stv,
                n as nat,
            )->Ok_0);
        }
    }
    let mut out: Vec<(String, usize)> = Vec::new();
    let mut k: usize = 0;
    while k < st.len()
        invariant
            k <= st@.len(),
            doc.wf(),
            dv == doc@,
            stv == pairs_view(st@),
            stv.len() == st@.len(),
            pairs_bounded(stv, dv.len() as int),
            pairs_bounded(pairs_view(out@), dv.len() as int),
            out@.len() == k,
            next_map(dv, stv, n as nat) == res_prepend(
                pairs_view(out@),
                next_map(dv, stv.skip(k as int), n as nat),
            ),
        decreases st@.len() - k,
    {
        proof {
            assert(stv.skip(k as int)[0] == stv[k as int]);
            assert(stv[k as int] == (st@[k as int].0@, st@[k as int].1 as int));
        }
        let idx = st[k].1;
        match doc.kth_next(idx, n) {
            Err(c) => {
                proof {
                    assert(next_map(dv, stv.skip(k as int), n as nat) == Err::<
                        Seq<PairV>,
                        ErrView,
                    >(ErrView::PrevNodeOverflow(n as nat, c as nat)));
                }
                return Err(CrawlerErr::PrevNodeOverflow(n, c));
            },
            Ok(j) => {
                let ghost pre = pairs_view(out@);
                out.push((st[k].0.clone(), j));
                proof {
                    assert(pairs_view(out@) =~= pre.push((st@[k as int].0@, j as int)));
                    let tail = next_map(dv, stv.skip(k + 1), n as nat);
                    assert(stv.skip(k as int).skip(1) =~= stv.skip(k + 1));
                    if tail is Ok {
                        assert(pre + (seq![(stv[k as int].0, j as int)] + tail->Ok_0) =~= pairs_view(
                            out@,
                        ) + tail->Ok_0);
                    }
                }
            },
        }
        k = k + 1;
    }
    proof {
        assert(stv.skip(k as int) =~= Seq::<PairV>::empty());
        assert(pairs_view(out@) + Seq::<PairV>::empty() =~= pairs_view(out@));
    }
    Ok(out)
}

/// Accessor over a state: which string each element contributes is decided
/// by `which` (0 outer HTML, 1 text, otherwise the named attribute).
fn accessor_step(doc: &Document, st: &Vec<(String, usize)>, which: u8, attr_name: &str) -> (r:
    Vec<(String, usize)>)
    requires
        doc.wf(),
        pairs_bounded(pairs_view(st@), doc@.len() as int),
    ensures
        pairs_view(r@) == accessor_map(
            doc@,
            pairs_view(st@),
            if which == 0 {
                outer_fn()
            } else if which == 1 {
                text_fn()
            } else {
                attr_fn(attr_name@)
            },
        ),
        pairs_bounded(pairs_view(r@), doc@.len() as int),
{
    let ghost dv = doc@;
    let ghost stv = pairs_view(st@);
    let ghost f = if which == 0 {
        outer_fn()
    } else if which == 1 {
        text_fn()
    } else {
        attr_fn(attr_name@)
    };
    proof {
        assert(stv.len() == st@.len());
    }
    let mut out: Vec<(String, usize)> = Vec::new();
    let mut k: usize = 0;
    while k < st.len()
        invariant
            k <= st@.len(),
            doc.wf(),
            dv == doc@,
            stv == pairs_view(st@),
            stv.len() == st@.len(),
            pairs_bounded(stv, dv.len() as int),
            f == (if which == 0 {
                outer_fn()
            } else if which == 1 {
                text_fn()
            } else {
                attr_fn(attr_name@)
            }),
            pairs_view(out@) =~= accessor_map(dv, stv.take(k as int), f),
            pairs_bounded(pairs_view(out@), dv.len() as int),
        decreases st@.len() - k,
    {
        proof {
            assert(stv[k as int] == (st@[k as int].0@, st@[k as int].1 as int));
        }
        let idx = st[k].1;
        let value = if which == 0 {
            doc.html_of(idx)
        } else if which == 1 {
            doc.text_of(idx)
        } else {
            doc.attr_of(idx, attr_name)
        };
        proof {
            if which == 0 {
                assert(f(dv[stv[k as int].1]) == dv[stv[k as int].1].outer_html);
            } else if which == 1 {
                assert(f(dv[stv[k as int].1]) == dv[stv[k as int].1].text);
            } else {
                assert(f(dv[stv[k as int].1]) == attr_spec(dv[stv[k as int].1].attrs, attr_name@));
            }
            assert(value@ == f(dv[stv[k as int].1]));
        }
        let ghost preout = out@;
        out.push((value, idx));
        proof {
            assert(out@ == preout.push((value, idx)));
            assert(pairs_view(preout).len() == preout.len());
            assert(accessor_map(dv, stv.take(k as int), f).len() == k);
            assert(preout.len() == k);
            assert forall|q: int| 0 <= q < out@.len() implies pairs_view(out@)[q]
                == accessor_map(dv, stv.take(k + 1), f)[q] by {
                assert(pairs_view(out@)[q] == (out@[q].0@, out@[q].1 as int));
                if q < preout.len() {
                    assert(out@[q] == preout[q]);
                    assert(pairs_view(preout)[q] == (preout[q].0@, preout[q].1 as int));
                    assert(stv.take(k + 1)[q] == stv.take(k as int)[q]);
                    assert(accessor_map(dv, stv.take(k as int), f)[q] == (f(
                        dv[stv.take(k as int)[q].1],
                    ), stv.take(k as int)[q].1));
                    assert(accessor_map(dv, stv.take(k + 1), f)[q] == (f(
                        dv[stv.take(k + 1)[q].1],
                    ), stv.take(k + 1)[q].1));
                } else {
                    assert(out@[q] == (value, idx));
                    assert(stv.take(k + 1)[q] == stv[k as int]);
                    assert(accessor_map(dv, stv.take(k + 1), f)[q] == (f(
                        dv[stv.take(k + 1)[q].1],
                    ), stv.take(k + 1)[q].1));
                }
            }
            assert(pairs_view(out@) =~= accessor_map(dv, stv.take(k + 1), f));
        }
        k = k + 1;
    }
    proof {
        assert(stv.take(stv.len() as int) =~= stv);
    }
    out
}

fn transform_step(c: &Command, st: &Vec<(String, usize)>, vars: &VarStore, ghost_len: Ghost<int>)
    -> (r: Result<Vec<(String, usize)>, CrawlerErr>)
    requires
        vars.wf(),
        pairs_bounded(pairs_view(st@), ghost_len@),
    ensures
        match r {
            Ok(out) => transform_map(c@, vars@, pairs_view(st@)) == Ok::<Seq<PairV>, ErrView>(
                pairs_view(out@),
            ) && pairs_bounded(pairs_view(out@), ghost_len@) && out@.len() == st@.len(),
            Err(e) => transform_map(c@, vars@, pairs_view(st@)) == Err::<Seq<PairV>, ErrView>(e@),
        },
{
    let ghost stv = pairs_view(st@);
    proof {
        assert(stv.len() == st@.len());
        assert(stv.skip(0) =~= stv);
        if transform_map(c@, vars@, stv) is Ok {
            assert(Seq::<PairV>::empty() + transform_map(c@, vars@, stv)->Ok_0 =~= transform_map(
                c@,
                vars@,
                stv,
            )->Ok_0);
        }
    }
    let mut out: Vec<(String, usize)> = Vec::new();
    let mut k: usize = 0;
    while k < st.len()
        invariant
            k <= st@.len(),
            vars.wf(),
            stv == pairs_view(st@),
            stv.len() == st@.len(),
            pairs_bounded(stv, ghost_len@),
            pairs_bounded(pairs_view(out@), ghost_len@),
            out@.len() == k,
            transform_map(c@, vars@, stv) == res_prepend(
                pairs_view(out@),
                transform_map(c@, vars@, stv.skip(k as int)),
            ),
        decreases st@.len() - k,
    {
        proof {
            assert(stv.skip(k as int)[0] == stv[k as int]);
            assert(stv[k as int] == (st@[k as int].0@, st@[k as int].1 as int));
        }
        match text_step(c, st[k].0.as_str(), vars) {
            Err(e) => {
                return Err(e);
            },
            Ok(s2) => {
                let ghost pre = pairs_view(out@);
                let idx = st[k].1;
                out.push((s2, idx));
                proof {
                    assert(pairs_view(out@) =~= pre.push(
                        (
                            text_step_spec(c@, stv[k as int].0, vars@)->Ok_0,
                            stv[k as int].1,
                        ),
                    ));
                    let tail = transform_map(c@, vars@, stv.skip(k + 1));
                    assert(stv.skip(k as int).skip(1) =~= stv.skip(k + 1));
                    if tail is Ok {
                        assert(pre + (seq![
                            (text_step_spec(c@, stv[k as int].0, vars@)->Ok_0, stv[k as int].1),
                        ] + tail->Ok_0) =~= pairs_view(out@) + tail->Ok_0);
                    }
                }
            },
        }
        k = k + 1;
    }
    proof {
        assert(stv.skip(k as int) =~= Seq::<PairV>::empty());
        assert(pairs_view(out@) + Seq::<PairV>::empty() =~= pairs_view(out@));
    }
    Ok(out)
}

/// Keep only the pairs whose string channel equals the resolved value.
fn filter_eq_step(st: &Vec<(String, usize)>, v: &str, ghost_len: Ghost<int>) -> (r: Vec<
    (String, usize),
>)
    requires
        pairs_bounded(pairs_view(st@), ghost_len@),
    ensures
        pairs_view(r@) == pairs_view(st@).filter(eq_pred(v@)),
        pairs_bounded(pairs_view(r@), ghost_len@),
{
    let ghost stv = pairs_view(st@);
    let ghost pred = eq_pred(v@);
    proof {
        assert(stv.len() == st@.len());
        reveal(Seq::filter);
        assert(stv.take(0) =~= Seq::<PairV>::empty());
        assert(Seq::<PairV>::empty().filter(pred) =~= Seq::<PairV>::empty());
    }
    let mut out: Vec<(String, usize)> = Vec::new();
    let mut k: usize = 0;
    while k < st.len()
        invariant
            k <= st@.len(),
            stv == pairs_view(st@),
            stv.len() == st@.len(),
            pred == eq_pred(v@),
            pairs_bounded(stv, ghost_len@),
            pairs_bounded(pairs_view(out@), ghost_len@),
            pairs_view(out@) == stv.take(k as int).filter(pred),
        decreases st@.len() - k,
    {
        proof {
            assert(stv[k as int] == (st@[k as int].0@, st@[k as int].1 as int));
        }
        let keep = crate::text::str_eq(st[k].0.as_str(), v);
        let ghost pre = pairs_view(out@);
        if keep {
            out.push((st[k].0.clone(), st[k].1));
            proof {
                assert(pairs_view(out@) =~= pre.push(stv[k as int]));
            }
        }
        proof {
            reveal(Seq::filter);
            assert(stv.take(k + 1).drop_last() =~= stv.take(k as int));
            assert(stv.take(k + 1).last() == stv[k as int]);
            assert(pred(stv[k as int]) == keep);
            if keep {
                assert(stv.take(k + 1).filter(pred) == stv.take(k as int).filter(pred).push(
                    stv[k as int],
                ));
                assert(pairs_view(out@) =~= stv.take(k + 1).filter(pred));
            } else {
                assert(stv.take(k + 1).filter(pred) == stv.take(k as int).filter(pred));
            }
        }
        k = k + 1;
    }
    proof {
        assert(stv.take(stv.len() as int) =~= stv);
    }
    out
}

/// Keep only the pairs whose string channel the compiled regex matches.
fn filter_match_step(
    st: &Vec<(String, usize)>,
    re: &regex::Regex,
    ghost_len: Ghost<int>,
) -> (r: Vec<(String, usize)>)
    requires
        pairs_bounded(pairs_view(st@), ghost_len@),
    ensures
        pairs_view(r@) == pairs_view(st@).filter(match_pred(regex_pattern(*re))),
        pairs_bounded(pairs_view(r@), ghost_len@),
{
    let ghost stv = pairs_view(st@);
    let ghost pred = match_pred(regex_pattern(*re));
    proof {
        assert(stv.len() == st@.len());
        reveal(Seq::filter);
        assert(stv.take(0) =~= Seq::<PairV>::empty());
        assert(Seq::<PairV>::empty().filter(pred) =~= Seq::<PairV>::empty());
    }
    let mut out: Vec<(String, usize)> = Vec::new();
    let mut k: usize = 0;
    while k < st.len()
        invariant
            k <= st@.len(),
            stv == pairs_view(st@),
            stv.len() == st@.len(),
            pred == match_pred(regex_pattern(*re)),
            pairs_bounded(stv, ghost_len@),
            pairs_bounded(pairs_view(out@), ghost_len@),
            pairs_view(out@) == stv.take(k as int).filter(pred),
        decreases st@.len() - k,
    {
        proof {
            assert(stv[k as int] == (st@[k as int].0@, st@[k as int].1 as int));
        }
        let keep = regex_matches(re, st[k].0.as_str());
        let ghost pre = pairs_view(out@);
        if keep {
            out.push((st[k].0.clone(), st[k].1));
            proof {
                assert(pairs_view(out@) =~= pre.push(stv[k as int]));
            }
        }
        proof {
            reveal(Seq::filter);
            assert(stv.take(k + 1).drop_last() =~= stv.take(k as int));
            assert(stv.take(k + 1).last() == stv[k as int]);
            assert(pred(stv[k as int]) == keep);
            if keep {
                assert(stv.take(k + 1).filter(pred) == stv.take(k as int).filter(pred).push(
                    stv[k as int],
                ));
                assert(pairs_view(out@) =~= stv.take(k + 1).filter(pred));
            } else {
                assert(stv.take(k + 1).filter(pred) == stv.take(k as int).filter(pred));
            }
        }
        k = k + 1;
    }
    proof {
        assert(stv.take(stv.len() as int) =~= stv);
    }
    out
}

/// The selector command over a state: for each pair, the matched
/// descendants of its element, with the string channel reset.
fn selector_step(doc: &Document, st: &Vec<(String, usize)>, sel: &scraper::Selector) -> (r: (
    Vec<(String, usize)>,
    Ghost<Seq<Seq<PairV>>>,
))
    requires
        doc.wf(),
        pairs_bounded(pairs_view(st@), doc@.len() as int),
    ensures
        r.1@.len() == st@.len(),
        sel_parts_ok(doc@, r.1@),
        r.1@.flatten() == pairs_view(r.0@),
        pairs_bounded(pairs_view(r.0@), doc@.len() as int),
{
    let ghost dv = doc@;
    let ghost stv = pairs_view(st@);
    proof {
        assert(stv.len() == st@.len());
        reveal(Seq::flatten);
    }
    let mut out: Vec<(String, usize)> = Vec::new();
    let mut parts: Ghost<Seq<Seq<PairV>>> = Ghost(Seq::empty());
    let mut k: usize = 0;
    while k < st.len()
        invariant
            k <= st@.len(),
            doc.wf(),
            dv == doc@,
            stv == pairs_view(st@),
            stv.len() == st@.len(),
            pairs_bounded(stv, dv.len() as int),
            parts@.len() == k,
            sel_parts_ok(dv, parts@),
            parts@.flatten() == pairs_view(out@),
            pairs_bounded(pairs_view(out@), dv.len() as int),
        decreases st@.len() - k,
    {
        proof {
            assert(stv[k as int] == (st@[k as int].0@, st@[k as int].1 as int));
        }
        let idx = st[k].1;
        let matched = doc.select_from(idx, sel);
        let ghost pre = pairs_view(out@);
        let ghost part0 = pairs_view(out@);
        let mut j: usize = 0;
        let ghost mut part = Seq::<PairV>::empty();
        while j < matched.len()
            invariant
                j <= matched@.len(),
                dv == doc@,
                forall|q: int| 0 <= q < matched@.len() ==> (#[trigger] matched@[q]) < dv.len(),
                part.len() == j,
                forall|q: int|
                    0 <= q < part.len() ==> (#[trigger] part[q]).0 == Seq::<char>::empty() && 0
                        <= part[q].1 < dv.len(),
                pairs_view(out@) == pre + part,
                pairs_bounded(pairs_view(out@), dv.len() as int),
            decreases matched@.len() - j,
        {
            let fresh = String::new();
            let mid = matched[j];
            let ghost preout = out@;
            out.push((fresh, mid));
            proof {
                assert(pairs_view(preout).len() == preout.len());
                part = part.push((Seq::<char>::empty(), matched@[j as int] as int));
                assert(out@ == preout.push((fresh, mid)));
                assert forall|q: int| 0 <= q < out@.len() implies pairs_view(out@)[q] == (pre
                    + part)[q] by {
                    assert(pairs_view(out@)[q] == (out@[q].0@, out@[q].1 as int));
                    if q < preout.len() {
                        assert(out@[q] == preout[q]);
                        assert(pairs_view(preout)[q] == (preout[q].0@, preout[q].1 as int));
                    } else {
                        assert(out@[q] == (fresh, mid));
                        assert((pre + part)[q] == part.last());
                    }
                }
                assert(pairs_view(out@) =~= pre + part);
                assert(0 <= part.last().1 < dv.len());
                assert forall|q: int| 0 <= q < pairs_view(out@).len() implies 0 <= (
                #[trigger] pairs_view(out@)[q]).1 < dv.len() by {
                    if q < preout.len() {
                        assert(pairs_view(out@)[q] == pairs_view(preout)[q]);
                    } else {
                        assert(pairs_view(out@)[q] == part.last());
                    }
                }
            }
            j = j + 1;
        }
        proof {
            lemma_flatten_push(parts@, part);
            parts@ = parts@.push(part);
            assert(parts@.flatten() =~= pairs_view(out@));
        }
        k = k + 1;
    }
    (out, parts)
}

/// Run a command list over root elements of a document. The outcome stands
/// in [`pipeline_rel`] to the inputs: every command except `selector` is a
/// function of the document model, the variable store and the state, and
/// an empty state ends the run at once with an empty result.
pub fn run_pipeline(
    cmds: &Vec<Command>,
    doc: &Document,
    roots: &Vec<usize>,
    vars: &VarStore,
) -> (r: Result<Vec<(String, usize)>, CrawlerErr>)
    requires
        doc.wf(),
        vars.wf(),
        forall|k: int| 0 <= k < roots@.len() ==> (#[trigger] roots@[k]) < doc@.len(),
    ensures
        match r {
            Ok(out) => pipeline_rel(
                cmds.deep_view(),
                doc@,
                vars@,
                init_pairs(roots@),
                Ok(pairs_view(out@)),
            ) && pairs_bounded(pairs_view(out@), doc@.len() as int),
            Err(e) => pipeline_rel(
                cmds.deep_view(),
                doc@,
                vars@,
                init_pairs(roots@),
                Err(e@),
            ),
        },
{
    let ghost cv = cmds.deep_view();
    let ghost dv = doc@;
    let ghost m = vars@;
    let ghost st0 = init_pairs(roots@);
    proof {
        assert(cv.len() == cmds@.len());
    }
    let mut cur: Vec<(String, usize)> = Vec::new();
    let mut k: usize = 0;
    while k < roots.len()
        invariant
            k <= roots@.len(),
            forall|q: int| 0 <= q < roots@.len() ==> (#[trigger] roots@[q]) < dv.len(),
            dv == doc@,
            cur@.len() == k,
            pairs_view(cur@) =~= init_pairs(roots@.take(k as int)),
            pairs_bounded(pairs_view(cur@), dv.len() as int),
        decreases roots@.len() - k,
    {
        let ghost pre = cur@;
        cur.push((String::new(), roots[k]));
        proof {
            assert(pairs_view(pre).len() == pre.len());
            assert(pre.len() == k);
            assert forall|q: int| 0 <= q < pairs_view(cur@).len() implies pairs_view(cur@)[q]
                == init_pairs(roots@.take(k + 1))[q] by {
                assert(pairs_view(cur@)[q] == (cur@[q].0@, cur@[q].1 as int));
                if q < k {
                    assert(cur@[q] == pre[q]);
                    assert(pairs_view(pre)[q] == (pre[q].0@, pre[q].1 as int));
                    assert(init_pairs(roots@.take(k as int))[q] == init_pairs(
                        roots@.take(k + 1),
                    )[q]);
                } else {
                    assert(cur@[q].0@ == Seq::<char>::empty());
                    assert(cur@[q].1 == roots@[k as int]);
                    assert(roots@.take(k + 1)[q] == roots@[k as int]);
                }
            }
            assert(pairs_view(cur@) =~= init_pairs(roots@.take(k + 1)));
        }
        k = k + 1;
    }
    proof {
        assert(roots@.take(roots@.len() as int) =~= roots@);
        assert(pairs_view(cur@) == st0);
        assert(cv.skip(0) =~= cv);
    }
    let mut i: usize = 0;
    while i < cmds.len()
        invariant
            i <= cmds@.len(),
            doc.wf(),
            vars.wf(),
            dv == doc@,
            m == vars@,
            cv == cmds.deep_view(),
            cv.len() == cmds@.len(),
            st0 == init_pairs(roots@),
            pairs_bounded(pairs_view(cur@), dv.len() as int),
            forall|res: Result<Seq<PairV>, ErrView>|
                #[trigger] pipeline_rel(cv.skip(i as int), dv, m, pairs_view(cur@), res)
                    ==> pipeline_rel(cv, dv, m, st0, res),
        decreases cmds@.len() - i,
    {
        if cur.len() == 0 {
            proof {
                assert(pairs_view(cur@).len() == cur@.len());
                assert(pairs_view(cur@) =~= Seq::<PairV>::empty());
                assert(pipeline_rel(cv.skip(i as int), dv, m, pairs_view(cur@), Ok::<
                    Seq<PairV>,
                    ErrView,
                >(Seq::<PairV>::empty())));
                assert(Ok::<Seq<PairV>, ErrView>(Seq::<PairV>::empty()) == Ok::<
                    Seq<PairV>,
                    ErrView,
                >(pairs_view(cur@)));
            }
            return Ok(cur);
        }
        proof {
            assert(cv.skip(i as int)[0] == cv[i as int]);
            assert(cv[i as int] == cmds@[i as int]@);
            assert(cv.skip(i as int).skip(1) =~= cv.skip(i + 1));
            assert(pairs_view(cur@).len() == cur@.len());
        }
        let ghost restc = cv.skip(i + 1);
        let step = match &cmds[i] {
            Command::Selector(p) => {
                match p.get_value(vars) {
                    Err(e) => Err(e),
                    Ok(v) => {
                        match crate::dom::compile_selector(v.as_str()) {
                            None => Err(CrawlerErr::SelectorError(v)),
                            Some(sel) => {
                                let (out, parts) = selector_step(doc, &cur, &sel);
                                proof {
                                    assert forall|res: Result<Seq<PairV>, ErrView>|
                                        #[trigger] pipeline_rel(
                                            restc,
                                            dv,
                                            m,
                                            pairs_view(out@),
                                            res,
                                        ) implies pipeline_rel(
                                        cv.skip(i as int),
                                        dv,
                                        m,
                                        pairs_view(cur@),
                                        res,
                                    ) by {
                                        assert(parts@.len() == pairs_view(cur@).len());
                                        assert(sel_parts_ok(dv, parts@));
                                        assert(pipeline_rel(restc, dv, m, parts@.flatten(), res));
                                    }
                                }
                                Ok(out)
                            },
                        }
                    },
                }
            },
            Command::Parent(n) => parent_step(doc, &cur, *n),
            Command::Prev(n) => prev_step(doc, &cur, *n),
            Command::Nth(n) => next_step(doc, &cur, *n),
            Command::Html => Ok(accessor_step(doc, &cur, 0, "")),
            Command::Val => Ok(accessor_step(doc, &cur, 1, "")),
            Command::Attr(p) => {
                match p.get_value(vars) {
                    Err(e) => Err(e),
                    Ok(v) => Ok(accessor_step(doc, &cur, 2, v.as_str())),
                }
            },
            Command::Equals(p) => {
                match p.get_value(vars) {
                    Err(e) => Err(e),
                    Ok(v) => Ok(filter_eq_step(&cur, v.as_str(), Ghost(dv.len() as int))),
                }
            },
            Command::RegexMatch(p) => {
                match p.get_value(vars) {
                    Err(e) => Err(e),
                    Ok(pat) => {
                        match regex_compile(pat.as_str()) {
                            None => Err(CrawlerErr::RegexParseError(pat)),
                            Some(re) => Ok(filter_match_step(
                                &cur,
                                &re,
                                Ghost(dv.len() as int),
                            )),
                        }
                    },
                }
            },
            _ => transform_step(&cmds[i], &cur, vars, Ghost(dv.len() as int)),
        };
        match step {
            Err(e) => {
                proof {
                    assert(pipeline_rel(cv.skip(i as int), dv, m, pairs_view(cur@), Err::<
                        Seq<PairV>,
                        ErrView,
                    >(e@)));
                }
                return Err(e);
            },
            Ok(next) => {
                proof {
                    assert forall|res: Result<Seq<PairV>, ErrView>|
                        #[trigger] pipeline_rel(restc, dv, m, pairs_view(next@), res)
                            implies pipeline_rel(cv, dv, m, st0, res) by {
                        assert(pipeline_rel(cv.skip(i as int), dv, m, pairs_view(cur@), res));
                    }
                }
                cur = next;
            },
        }
        i = i + 1;
    }
    proof {
        assert(cv.skip(i as int) =~= Seq::<CmdView>::empty());
        if pairs_view(cur@).len() == 0 {
            assert(pipeline_rel(cv.skip(i as int), dv, m, pairs_view(cur@), Ok::<
                Seq<PairV>,
                ErrView,
            >(Seq::<PairV>::empty())));
            assert(pairs_view(cur@) =~= Seq::<PairV>::empty());
        } else {
            assert(pipeline_rel(cv.skip(i as int), dv, m, pairs_view(cur@), Ok::<
                Seq<PairV>,
                ErrView,
            >(pairs_view(cur@))));
        }
    }
    Ok(cur)
}

/// The string channels of a pair list, computed.
pub(crate) fn strings_from_pairs(pairs: &Vec<(String, usize)>) -> (r: Vec<String>)
    ensures
        r.deep_view() == strings_of(pairs_view(pairs@)),
{
    let ghost ps = pairs_view(pairs@);
    let mut vs: Vec<String> = Vec::new();
    let mut k: usize = 0;
    proof {
        assert(ps.len() == pairs@.len());
    }
    while k < pairs.len()
        invariant
            k <= pairs@.len(),
            ps == pairs_view(pairs@),
            ps.len() == pairs@.len(),
            vs.deep_view() =~= strings_of(ps.take(k as int)),
        decreases pairs@.len() - k,
    {
        let ghost pre = vs.deep_view();
        vs.push(pairs[k].0.clone());
        proof {
            assert(ps[k as int] == (pairs@[k as int].0@, pairs@[k as int].1 as int));
            assert(vs.deep_view() =~= pre.push(pairs@[k as int].0@));
            assert(vs.deep_view() =~= strings_of(ps.take(k + 1)));
        }
        k = k + 1;
    }
    proof {
        assert(ps.take(ps.len() as int) =~= ps);
        assert(vs.deep_view() =~= strings_of(ps));
    }
    vs
}

/// The element channels of a pair list, computed.
pub(crate) fn elems_from_pairs(pairs: &Vec<(String, usize)>) -> (r: Vec<usize>)
    ensures
        r@.map_values(|x: usize| x as int) == elems_of(pairs_view(pairs@)),
        r@.len() == pairs@.len(),
        forall|k: int| 0 <= k < r@.len() ==> (#[trigger] r@[k]) as int == pairs_view(pairs@)[k].1,
{
    let ghost ps = pairs_view(pairs@);
    let mut es: Vec<usize> = Vec::new();
    let mut k: usize = 0;
    proof {
        assert(ps.len() == pairs@.len());
    }
    while k < pairs.len()
        invariant
            k <= pairs@.len(),
            ps == pairs_view(pairs@),
            ps.len() == pairs@.len(),
            es@.len() == k,
            es@.map_values(|x: usize| x as int) =~= elems_of(ps.take(k as int)),
            forall|q: int| 0 <= q < es@.len() ==> (#[trigger] es@[q]) as int == ps[q].1,
        decreases pairs@.len() - k,
    {
        let ghost pre = es@;
        es.push(pairs[k].1);
        proof {
            assert(ps[k as int] == (pairs@[k as int].0@, pairs@[k as int].1 as int));
            assert(pre.len() == k);
            assert forall|q: int| 0 <= q < es@.len() implies (#[trigger] es@[q]) as int
                == ps.take(k + 1)[q].1 by {
                if q < k {
                    assert(es@[q] == pre[q]);
                    assert(ps.take(k + 1)[q] == ps[q]);
                } else {
                    assert(es@[q] == pairs@[k as int].1);
                    assert(ps.take(k + 1)[q] == ps[k as int]);
                }
            }
            assert forall|q: int| 0 <= q < es@.len() implies (#[trigger] es@[q]) as int
                == elems_of(ps.take(k + 1))[q] by {
                assert(elems_of(ps.take(k + 1))[q] == ps.take(k + 1)[q].1);
            }
            assert(es@.map_values(|x: usize| x as int) =~= elems_of(ps.take(k + 1)));
        }
        k = k + 1;
    }
    proof {
        assert(ps.take(ps.len() as int) =~= ps);
    }
    es
}

impl CrawlerScript {
    /// Run this script against root elements of a document; the result is
    /// the final pair list of string channel and element.
    pub fn get_value_with_element(
        &self,
        doc: &Document,
        roots: &Vec<usize>,
        vars: &VarStore,
    ) -> (r: Result<Vec<(String, usize)>, CrawlerErr>)
        requires
            doc.wf(),
            vars.wf(),
            forall|k: int| 0 <= k < roots@.len() ==> (#[trigger] roots@[k]) < doc@.len(),
        ensures
            match r {
                Ok(out) => pipeline_rel(
                    self.commands.deep_view(),
                    doc@,
                    vars@,
                    init_pairs(roots@),
                    Ok(pairs_view(out@)),
                ) && pairs_bounded(pairs_view(out@), doc@.len() as int),
                Err(e) => pipeline_rel(
                    self.commands.deep_view(),
                    doc@,
                    vars@,
                    init_pairs(roots@),
                    Err(e@),
                ),
            },
    {
        run_pipeline(&self.commands, doc, roots, vars)
    }

    /// Run this script and keep the string channel: the captured values.
    pub fn get_values(&self, doc: &Document, roots: &Vec<usize>, vars: &VarStore) -> (r: Result<
        Vec<String>,
        CrawlerErr,
    >)
        requires
            doc.wf(),
            vars.wf(),
            forall|k: int| 0 <= k < roots@.len() ==> (#[trigger] roots@[k]) < doc@.len(),
        ensures
            match r {
                Ok(vs) => exists|ps: Seq<PairV>|
                    #[trigger] pipeline_rel(
                        self.commands.deep_view(),
                        doc@,
                        vars@,
                        init_pairs(roots@),
                        Ok(ps),
                    ) && vs.deep_view() == strings_of(ps),
                Err(e) => pipeline_rel(
                    self.commands.deep_view(),
                    doc@,
                    vars@,
                    init_pairs(roots@),
                    Err(e@),
                ),
            },
    {
        let pairs = self.get_value_with_element(doc, roots, vars)?;
        let ghost ps = pairs_view(pairs@);
        let vs = strings_from_pairs(&pairs);
        proof {
            assert(vs.deep_view() == strings_of(ps));
        }
        Ok(vs)
    }

    /// Run this script and keep the element channel: the refined elements.
    pub fn get_elements(&self, doc: &Document, roots: &Vec<usize>, vars: &VarStore) -> (r: Result<
        Vec<usize>,
        CrawlerErr,
    >)
        requires
            doc.wf(),
            vars.wf(),
            forall|k: int| 0 <= k < roots@.len() ==> (#[trigger] roots@[k]) < doc@.len(),
        ensures
            match r {
                Ok(es) => (exists|ps: Seq<PairV>|
                    #[trigger] pipeline_rel(
                        self.commands.deep_view(),
                        doc@,
                        vars@,
                        init_pairs(roots@),
                        Ok(ps),
                    ) && es@.map_values(|x: usize| x as int) == elems_of(ps))
                    && (forall|k: int|
                    0 <= k < es@.len() ==> (#[trigger] es@[k]) < doc@.len()),
                Err(e) => pipeline_rel(
                    self.commands.deep_view(),
                    doc@,
                    vars@,
                    init_pairs(roots@),
                    Err(e@),
                ),
            },
    {
        let pairs = self.get_value_with_element(doc, roots, vars)?;
        let ghost ps = pairs_view(pairs@);
        let es = elems_from_pairs(&pairs);
        proof {
            assert(es@.map_values(|x: usize| x as int) == elems_of(ps));
            assert(crate::interp::pairs_bounded(ps, doc@.len() as int));
            assert forall|k: int| 0 <= k < es@.len() implies (#[trigger] es@[k]) < doc@.len() by {
                assert(es@[k] as int == ps[k].1);
            }
        }
        Ok(es)
    }
}

/// The failures evaluation itself can produce: dynamic-variable failures
/// and regex rejections.
pub open spec fn is_eval_err(e: ErrView) -> bool {
    e is DynNotYetInitialised || e is DynNoValidData || e is DynMultipleResults
        || e is RegexParseError
}

/// Parameter resolution fails only with dynamic-variable failures.
pub proof fn lemma_resolve_err(p: ParamView, m: Map<Seq<char>, Seq<Seq<char>>>)
    requires
        resolve_spec(p, m) is Err,
    ensures
        is_eval_err(resolve_spec(p, m)->Err_0),
{
}

/// A text step fails only with evaluation failures.
pub proof fn lemma_text_step_err(c: CmdView, s: Seq<char>, m: Map<Seq<char>, Seq<Seq<char>>>)
    requires
        text_step_spec(c, s, m) is Err,
    ensures
        is_eval_err(text_step_spec(c, s, m)->Err_0),
{
    match c {
        CmdView::Replace(a, b) => {
            if resolve_spec(a, m) is Err {
                lemma_resolve_err(a, m);
            } else {
                lemma_resolve_err(b, m);
            }
        },
        CmdView::Insert(_, p) => {
            lemma_resolve_err(p, m);
        },
        CmdView::Prepend(p) => {
            lemma_resolve_err(p, m);
        },
        CmdView::Append(p) => {
            lemma_resolve_err(p, m);
        },
        CmdView::Delete(p) => {
            lemma_resolve_err(p, m);
        },
        CmdView::RegexExtract(p) => {
            if resolve_spec(p, m) is Err {
                lemma_resolve_err(p, m);
            }
        },
        CmdView::RegexReplace(p, rp) => {
            if resolve_spec(p, m) is Err {
                lemma_resolve_err(p, m);
            } else if resolve_spec(rp, m) is Err {
                lemma_resolve_err(rp, m);
            }
        },
        _ => {},
    }
}

/// A text run fails only with evaluation failures.
pub proof fn lemma_text_run_err(cmds: Seq<CmdView>, s: Seq<char>, m: Map<Seq<char>, Seq<Seq<char>>>)
    requires
        text_run_spec(cmds, s, m) is Err,
    ensures
        is_eval_err(text_run_spec(cmds, s, m)->Err_0),
    decreases cmds.len(),
{
    let step = text_step_spec(cmds[0], s, m);
    if step is Err {
        lemma_text_step_err(cmds[0], s, m);
    } else {
        lemma_text_run_err(cmds.skip(1), step->Ok_0, m);
    }
}

/// `replace(a, a)` is the identity: one step replacing a value by itself
/// returns the input unchanged, for any parameter that resolves.
pub proof fn lemma_replace_self_identity(
    p: ParamView,
    s: Seq<char>,
    m: Map<Seq<char>, Seq<Seq<char>>>,
)
    requires
        resolve_spec(p, m) is Ok,
    ensures
        text_step_spec(CmdView::Replace(p, p), s, m) == Ok::<Seq<char>, ErrView>(s),
{
    let v = resolve_spec(p, m)->Ok_0;
    crate::text::lemma_replace_identity(s, v);
}

/// `replace(a, a)` as a whole pipeline is the identity on any seed.
pub proof fn lemma_replace_self_run(a: Seq<char>, s: Seq<char>, m: Map<Seq<char>, Seq<Seq<char>>>)
    ensures
        text_run_spec(
            seq![CmdView::Replace(ParamView::Static(a), ParamView::Static(a))],
            s,
            m,
        ) == Ok::<Seq<char>, ErrView>(s),
{
    let one = seq![CmdView::Replace(ParamView::Static(a), ParamView::Static(a))];
    let none = Seq::<CmdView>::empty();
    lemma_replace_self_identity(ParamView::Static(a), s, m);
    assert(one.skip(1) =~= none);
    assert(text_run_spec(none, s, m) == Ok::<Seq<char>, ErrView>(s));
    assert(text_run_spec(one, s, m) == text_run_spec(none, s, m));
}

} // verus!
