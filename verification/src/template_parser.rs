//! The file-naming template parser: `$variable$` placeholders substituted
//! from record fields, with a choice of strategies for records that credit
//! several performers. Used to decide output paths; the file system stays
//! with the caller.

use vstd::prelude::*;

use vstd::string::StringExecFns;

use crate::errors::{CrawlerErr, ErrView};
use crate::nfo::MovieNfo;
use crate::parser::scan_ident_spec;
use crate::text::{is_space, str_chars, str_eq, trim_end_spec};
use crate::vars::VarStore;

verus! {

/// How a record with several credited performers is laid out.
#[derive(Clone, Copy, PartialEq, Eq, Structural, Debug)]
pub enum MultiActorStrategy {
    /// A hard link in every performer's directory.
    HardLink,
    /// A symbolic link in every performer's directory.
    SymLink,
    /// Only the first performer's directory.
    FirstOnly,
    /// One directory named after all performers.
    Merge,
}

/// The outcome of parsing a naming template.
pub struct ParseResult {
    /// The path under the first (or merged) performer.
    pub primary_path: String,
    /// The paths for the remaining performers under a link strategy.
    pub additional_paths: Vec<String>,
    /// The strategy that produced this result.
    pub strategy: MultiActorStrategy,
}

/// The strategy a configuration string names; unknown strings fall back
/// to symbolic links.
pub open spec fn strategy_of(s: Seq<char>) -> MultiActorStrategy {
    let l = crate::text::lower_seq(s);
    if l == "hardlink"@ {
        MultiActorStrategy::HardLink
    } else if l == "symlink"@ {
        MultiActorStrategy::SymLink
    } else if l == "first_only"@ || l == "first"@ {
        MultiActorStrategy::FirstOnly
    } else if l == "merge"@ {
        MultiActorStrategy::Merge
    } else {
        MultiActorStrategy::SymLink
    }
}

impl MultiActorStrategy {
    /// The strategy a configuration string names.
    pub fn from_string(s: &str) -> (r: MultiActorStrategy)
        ensures
            r == strategy_of(s@),
    {
        let lowered = crate::text::chars_to_string(&crate::text::lower_chars(&str_chars(s)));
        if str_eq(lowered.as_str(), "hardlink") {
            MultiActorStrategy::HardLink
        } else if str_eq(lowered.as_str(), "symlink") {
            MultiActorStrategy::SymLink
        } else if str_eq(lowered.as_str(), "first_only") || str_eq(lowered.as_str(), "first") {
            MultiActorStrategy::FirstOnly
        } else if str_eq(lowered.as_str(), "merge") {
            MultiActorStrategy::Merge
        } else {
            MultiActorStrategy::SymLink
        }
    }
}

/// The text without leading whitespace.
pub open spec fn trim_start_spec(s: Seq<char>) -> Seq<char>
    decreases s.len(),
{
    if s.len() > 0 && is_space(s[0]) {
        trim_start_spec(s.skip(1))
    } else {
        s
    }
}

/// Both ends trimmed.
pub open spec fn trim_spec(s: Seq<char>) -> Seq<char> {
    trim_end_spec(trim_start_spec(s))
}

/// Characters a path segment may not hold (the path separator `/` is
/// allowed here, since templates build paths).
pub open spec fn is_segment_illegal(c: char) -> bool {
    c == '<' || c == '>' || c == ':' || c == '"' || c == '|' || c == '?' || c == '*' || c == '\\'
}

/// The filter keeping characters legal in a path segment.
pub open spec fn keep_segment() -> spec_fn(char) -> bool {
    |ch: char| !is_segment_illegal(ch)
}

/// A replacement value cleaned for use in a path: illegal characters
/// removed, both ends trimmed, and `Unknown` when nothing remains.
pub open spec fn segment_spec(s: Seq<char>) -> Seq<char> {
    let t = trim_spec(s.filter(keep_segment()));
    if t.len() == 0 {
        "Unknown"@
    } else {
        t
    }
}

/// The merged-performer value: every comma in `all_actors` replaced by an
/// ampersand with spaces, or `Unknown` when nothing is bound.
pub open spec fn merge_value(m: Map<Seq<char>, Seq<Seq<char>>>) -> Seq<char> {
    if m.contains_key("all_actors"@) && m["all_actors"@].len() >= 1 && m["all_actors"@][0].len()
        > 0 {
        crate::text::replace_spec(m["all_actors"@][0], seq![','], seq![' ', '&', ' '])
    } else {
        "Unknown"@
    }
}

/// What a placeholder name denotes: `actor` uses the override when one is
/// given and falls back to `Unknown`; every other name must be bound in
/// the store.
pub open spec fn tp_resolve(
    name: Seq<char>,
    m: Map<Seq<char>, Seq<Seq<char>>>,
    ov: Option<Seq<char>>,
) -> Result<Seq<char>, ErrView> {
    if name == "actor"@ {
        match ov {
            Some(v) => Ok(v),
            None => if m.contains_key(name) && m[name].len() >= 1 {
                Ok(m[name][0])
            } else {
                Ok("Unknown"@)
            },
        }
    } else {
        if m.contains_key(name) && m[name].len() >= 1 {
            Ok(m[name][0])
        } else {
            Err(ErrView::NodeNotFound(name))
        }
    }
}

/// The template from position `i` with every `$name$` placeholder replaced
/// by its cleaned value; a `$` that opens no well-formed placeholder stays
/// literal.
pub open spec fn tp_subst_at(
    s: Seq<char>,
    i: int,
    m: Map<Seq<char>, Seq<Seq<char>>>,
    ov: Option<Seq<char>>,
) -> Result<Seq<char>, ErrView>
    decreases s.len() - i,
{
    if i < 0 || i >= s.len() {
        Ok(Seq::empty())
    } else if s[i] == '$' {
        let e = scan_ident_spec(s, i + 1);
        if i + 1 < e && e < s.len() && s[e] == '$' {
            let name = s.subrange(i + 1, e);
            match tp_resolve(name, m, ov) {
                Err(err) => Err(err),
                Ok(v) => match tp_subst_at(s, e + 1, m, ov) {
                    Err(err) => Err(err),
                    Ok(rest) => Ok(segment_spec(v) + rest),
                },
            }
        } else {
            match tp_subst_at(s, i + 1, m, ov) {
                Err(err) => Err(err),
                Ok(rest) => Ok(seq![s[i]] + rest),
            }
        }
    } else {
        match tp_subst_at(s, i + 1, m, ov) {
            Err(err) => Err(err),
            Ok(rest) => Ok(seq![s[i]] + rest),
        }
    }
}

/// The whole substituted template.
pub open spec fn tp_subst(
    s: Seq<char>,
    m: Map<Seq<char>, Seq<Seq<char>>>,
    ov: Option<Seq<char>>,
) -> Result<Seq<char>, ErrView> {
    tp_subst_at(s, 0, m, ov)
}

/// A replacement value cleaned for use in a path, computed.
fn segment_text(s: &str) -> (r: String)
    ensures
        r@ == segment_spec(s@),
{
    let ghost pred = keep_segment();
    let chars = str_chars(s);
    let mut kept: Vec<char> = Vec::new();
    let mut k: usize = 0;
    proof {
        reveal(Seq::filter);
        assert(chars@.take(0) =~= Seq::<char>::empty());
        assert(Seq::<char>::empty().filter(pred) =~= Seq::<char>::empty());
    }
    while k < chars.len()
        invariant
            k <= chars@.len(),
            chars@ == s@,
            pred == keep_segment(),
            kept@ == chars@.take(k as int).filter(pred),
        decreases chars@.len() - k,
    {
        let c = chars[k];
        let keep = !(c == '<' || c == '>' || c == ':' || c == '"' || c == '|' || c == '?' || c
            == '*' || c == '\\');
        if keep {
            kept.push(c);
        }
        proof {
            reveal(Seq::filter);
            assert(chars@.take(k + 1).drop_last() =~= chars@.take(k as int));
            assert(chars@.take(k + 1).last() == chars@[k as int]);
            assert(c == chars@[k as int]);
            assert(is_segment_illegal(c) == !keep);
            assert(pred(chars@[k as int]) == keep);
        }
        k = k + 1;
    }
    proof {
        assert(chars@.take(chars@.len() as int) =~= chars@);
    }
    let trimmed = trim_chars(kept);
    if trimmed.len() == 0 {
        let mut u = String::new();
        u.append("Unknown");
        u
    } else {
        crate::text::chars_to_string(&trimmed)
    }
}

/// Both ends of the vector trimmed of whitespace.
fn trim_chars(s: Vec<char>) -> (r: Vec<char>)
    ensures
        r@ == trim_spec(s@),
{
    let mut v = s;
    let ghost orig = v@;
    let mut start: usize = 0;
    proof {
        assert(orig.skip(0) =~= orig);
    }
    while start < v.len() && (v[start] == ' ' || v[start] == '\t' || v[start] == '\n'
        || v[start] == '\r')
        invariant
            start <= v@.len(),
            v@ == orig,
            trim_start_spec(orig) == trim_start_spec(orig.skip(start as int)),
        decreases v@.len() - start,
    {
        proof {
            assert(orig.skip(start as int)[0] == orig[start as int]);
            assert(orig.skip(start as int).skip(1) =~= orig.skip(start + 1));
        }
        start = start + 1;
    }
    proof {
        if start < v@.len() {
            assert(orig.skip(start as int)[0] == orig[start as int]);
        }
        assert(trim_start_spec(orig.skip(start as int)) == orig.skip(start as int));
    }
    let mut head: Vec<char> = Vec::new();
    let mut k = start;
    while k < v.len()
        invariant
            start <= k <= v@.len(),
            v@ == orig,
            head@ == orig.subrange(start as int, k as int),
        decreases v@.len() - k,
    {
        head.push(v[k]);
        assert(head@ =~= orig.subrange(start as int, k + 1));
        k = k + 1;
    }
    proof {
        assert(head@ =~= orig.skip(start as int));
    }
    let mut out = head;
    let ghost mid = out@;
    loop
        invariant
            trim_end_spec(mid) == trim_end_spec(out@),
        ensures
            trim_end_spec(mid) == trim_end_spec(out@),
            out@.len() == 0 || !is_space(out@.last()),
        decreases out@.len(),
    {
        let n = out.len();
        if n == 0 {
            break;
        }
        let c = out[n - 1];
        if c == ' ' || c == '\t' || c == '\n' || c == '\r' {
            out.pop();
        } else {
            break;
        }
    }
    proof {
        assert(trim_end_spec(out@) == out@);
    }
    out
}

/// Substitute a template against a store with an optional actor override.
fn tp_substitute(
    template: &str,
    vars: &VarStore,
    ov: Option<&String>,
) -> (r: Result<String, CrawlerErr>)
    requires
        vars.wf(),
    ensures
        match r {
            Ok(u) => tp_subst(template@, vars@, match ov {
                Some(v) => Some(v@),
                None => None,
            }) == Ok::<Seq<char>, ErrView>(u@),
            Err(e) => tp_subst(template@, vars@, match ov {
                Some(v) => Some(v@),
                None => None,
            }) == Err::<Seq<char>, ErrView>(e@),
        },
{
    let s = str_chars(template);
    let ghost sv = template@;
    let ghost m = vars@;
    let ghost ovv: Option<Seq<char>> = match ov {
        Some(v) => Some(v@),
        None => None,
    };
    let mut out: Vec<char> = Vec::new();
    let mut i: usize = 0;
    proof {
        if tp_subst_at(sv, 0, m, ovv) is Ok {
            assert(Seq::<char>::empty() + tp_subst_at(sv, 0, m, ovv)->Ok_0 =~= tp_subst_at(
                sv,
                0,
                m,
                ovv,
            )->Ok_0);
        }
    }
    while i < s.len()
        invariant
            i <= s@.len(),
            s@ == sv,
            sv == template@,
            m == vars@,
            vars.wf(),
            ovv == (match ov {
                Some(v) => Some(v@),
                None => None,
            }),
            (match tp_subst_at(sv, i as int, m, ovv) {
                Ok(rest) => tp_subst_at(sv, 0, m, ovv) == Ok::<Seq<char>, ErrView>(out@ + rest),
                Err(e) => tp_subst_at(sv, 0, m, ovv) == Err::<Seq<char>, ErrView>(e),
            }),
        decreases s@.len() - i,
    {
        if s[i] == '$' {
            let e = crate::parser::scan_ident(&s, i + 1);
            if i + 1 < e && e < s.len() && s[e] == '$' {
                let name = crate::parser::sub_string(&s, i + 1, e);
                proof {
                    assert(name@ == sv.subrange(i + 1, e as int));
                }
                let is_actor = str_eq(name.as_str(), "actor");
                let resolved: String = if is_actor {
                    match ov {
                        Some(v) => v.clone(),
                        None => {
                            match vars.get(name.as_str()) {
                                Some(values) => {
                                    proof {
                                        assert(values.deep_view().len() == values@.len());
                                    }
                                    if values.len() >= 1 {
                                        proof {
                                            assert(values.deep_view()[0] == values@[0]@);
                                        }
                                        values[0].clone()
                                    } else {
                                        let mut u = String::new();
                                        u.append("Unknown");
                                        u
                                    }
                                },
                                None => {
                                    let mut u = String::new();
                                    u.append("Unknown");
                                    u
                                },
                            }
                        },
                    }
                } else {
                    match vars.get(name.as_str()) {
                        Some(values) => {
                            proof {
                                assert(values.deep_view().len() == values@.len());
                            }
                            if values.len() >= 1 {
                                proof {
                                    assert(values.deep_view()[0] == values@[0]@);
                                }
                                values[0].clone()
                            } else {
                                proof {
                                    assert(tp_resolve(name@, m, ovv) == Err::<Seq<char>, ErrView>(
                                        ErrView::NodeNotFound(name@),
                                    ));
                                }
                                return Err(CrawlerErr::NodeNotFound(name));
                            }
                        },
                        None => {
                            proof {
                                assert(tp_resolve(name@, m, ovv) == Err::<Seq<char>, ErrView>(
                                    ErrView::NodeNotFound(name@),
                                ));
                            }
                            return Err(CrawlerErr::NodeNotFound(name));
                        },
                    }
                };
                proof {
                    assert(tp_resolve(name@, m, ovv) == Ok::<Seq<char>, ErrView>(resolved@));
                }
                let cleaned = segment_text(resolved.as_str());
                let ghost pre = out@;
                crate::parser::push_str_chars(&mut out, cleaned.as_str());
                proof {
                    let tail = tp_subst_at(sv, e + 1, m, ovv);
                    if tail is Ok {
                        assert(pre + (segment_spec(resolved@) + tail->Ok_0) =~= out@
                            + tail->Ok_0);
                    }
                }
                i = e + 1;
            } else {
                let ghost pre = out@;
                out.push(s[i]);
                proof {
                    let tail = tp_subst_at(sv, i + 1, m, ovv);
                    if tail is Ok {
                        assert(pre + (seq![sv[i as int]] + tail->Ok_0) =~= out@ + tail->Ok_0);
                    }
                }
                i = i + 1;
            }
        } else {
            let ghost pre = out@;
            out.push(s[i]);
            proof {
                let tail = tp_subst_at(sv, i + 1, m, ovv);
                if tail is Ok {
                    assert(pre + (seq![sv[i as int]] + tail->Ok_0) =~= out@ + tail->Ok_0);
                }
            }
            i = i + 1;
        }
    }
    proof {
        assert(tp_subst_at(sv, i as int, m, ovv) == Ok::<Seq<char>, ErrView>(
            Seq::<char>::empty(),
        ));
        assert(out@ + Seq::<char>::empty() =~= out@);
    }
    Ok(crate::text::chars_to_string(&out))
}

/// The comma-separated pieces of a list value, trimmed.
fn split_commas(s: &str) -> (r: Vec<String>) {
    let chars = str_chars(s);
    let mut r: Vec<String> = Vec::new();
    let mut cur: Vec<char> = Vec::new();
    let mut i: usize = 0;
    while i < chars.len()
        decreases chars@.len() - i,
    {
        let c = chars[i];
        if c == ',' {
            r.push(crate::text::chars_to_string(&trim_chars(cur)));
            cur = Vec::new();
        } else {
            cur.push(c);
        }
        i = i + 1;
    }
    r.push(crate::text::chars_to_string(&trim_chars(cur)));
    r
}

/// A scalar that falls back to `Unknown` when empty.
pub open spec fn or_unknown(s: Seq<char>) -> Seq<char> {
    if s.len() == 0 {
        "Unknown"@
    } else {
        s
    }
}

/// A signed number spelled in decimal.
pub open spec fn int_str_spec(v: int) -> Seq<char> {
    if v >= 0 {
        crate::parser::dec_digits(v as nat)
    } else {
        seq!['-'] + crate::parser::dec_digits((-v) as nat)
    }
}

/// The year binding: the number, or `Unknown` when absent.
pub open spec fn year_str(y: Option<i32>) -> Seq<char> {
    match y {
        Some(v) => int_str_spec(v as int),
        None => "Unknown"@,
    }
}

/// All performer names joined by commas, in credit order.
pub open spec fn joined_actors(actors: Seq<crate::nfo::Actor>) -> Seq<char>
    decreases actors.len(),
{
    if actors.len() == 0 {
        Seq::empty()
    } else if actors.len() == 1 {
        actors[0].name@
    } else {
        joined_actors(actors.drop_last()) + seq![','] + actors.last().name@
    }
}

/// The variable bindings `populate_from_nfo` writes, over a prior store.
pub open spec fn populate_spec(
    m: Map<Seq<char>, Seq<Seq<char>>>,
    nfo: crate::nfo::MovieNfo,
) -> Map<Seq<char>, Seq<Seq<char>>> {
    m.insert("title"@, seq![or_unknown(nfo.title@)]).insert(
        "original_title"@,
        seq![
            if nfo.original_title@.len() == 0 {
                or_unknown(nfo.title@)
            } else {
                nfo.original_title@
            },
        ],
    ).insert("year"@, seq![year_str(nfo.year)]).insert(
        "series"@,
        seq![
            match nfo.set {
                Some(set) => set.name@,
                None => Seq::<char>::empty(),
            },
        ],
    ).insert(
        "actor"@,
        seq![
            if nfo.actors@.len() > 0 {
                nfo.actors@[0].name@
            } else {
                "Unknown"@
            },
        ],
    ).insert("all_actors"@, seq![joined_actors(nfo.actors@)]).insert(
        "director"@,
        seq![
            if nfo.directors@.len() > 0 {
                nfo.directors@[0]@
            } else {
                "Unknown"@
            },
        ],
    ).insert(
        "studio"@,
        seq![
            if nfo.studios@.len() > 0 {
                nfo.studios@[0]@
            } else {
                "Unknown"@
            },
        ],
    ).insert(
        "genre"@,
        seq![
            if nfo.genres@.len() > 0 {
                nfo.genres@[0]@
            } else {
                "Unknown"@
            },
        ],
    ).insert(
        "id"@,
        seq![
            if nfo.imdb_id@.len() > 0 {
                nfo.imdb_id@
            } else if nfo.unique_ids@.len() > 0 {
                nfo.unique_ids@[0].value@
            } else {
                "Unknown"@
            },
        ],
    )
}

/// Parses naming templates against the variables of one record.
pub struct TemplateParser {
    variables: VarStore,
}

impl TemplateParser {
    /// A parser with no variables bound.
    pub fn new() -> (r: TemplateParser)
        ensures
            r.wf(),
            r.vars_view() == Map::<Seq<char>, Seq<Seq<char>>>::empty(),
    {
        TemplateParser { variables: VarStore::new() }
    }

    /// The parser's store is well formed.
    pub closed spec fn wf(&self) -> bool {
        self.variables.wf()
    }

    /// The bound variables, as a map.
    pub closed spec fn vars_view(&self) -> Map<Seq<char>, Seq<Seq<char>>> {
        self.variables@
    }

    /// Bind the template variables from a record: title, original title,
    /// year, series, first and all performers, director, studio, genre,
    /// and identifier, with `Unknown` standing in for absent scalars.
    pub fn populate_from_nfo(&mut self, nfo: &MovieNfo) -> (r: Result<(), CrawlerErr>)
        requires
            old(self).wf(),
        ensures
            final(self).wf(),
            r is Ok,
            final(self).vars_view() == populate_spec(old(self).vars_view(), *nfo),
    {
        let title = if nfo.title.unicode_len() == 0 {
            unknown_text()
        } else {
            nfo.title.clone()
        };
        self.set_single("title", title);
        let original = if nfo.original_title.unicode_len() == 0 {
            if nfo.title.unicode_len() == 0 {
                unknown_text()
            } else {
                nfo.title.clone()
            }
        } else {
            nfo.original_title.clone()
        };
        self.set_single("original_title", original);
        let year = match nfo.year {
            Some(y) => int_text(y),
            None => unknown_text(),
        };
        self.set_single("year", year);
        let series = match &nfo.set {
            Some(set) => set.name.clone(),
            None => String::new(),
        };
        self.set_single("series", series);
        if nfo.actors.len() > 0 {
            self.set_single("actor", nfo.actors[0].name.clone());
            let all = join_actor_names(&nfo.actors);
            self.set_single("all_actors", all);
        } else {
            self.set_single("actor", unknown_text());
            let empty_names = String::new();
            proof {
                assert(joined_actors(nfo.actors@) =~= Seq::<char>::empty());
            }
            self.set_single("all_actors", empty_names);
        }
        let director = if nfo.directors.len() > 0 {
            nfo.directors[0].clone()
        } else {
            unknown_text()
        };
        self.set_single("director", director);
        let studio = if nfo.studios.len() > 0 {
            nfo.studios[0].clone()
        } else {
            unknown_text()
        };
        self.set_single("studio", studio);
        let genre = if nfo.genres.len() > 0 {
            nfo.genres[0].clone()
        } else {
            unknown_text()
        };
        self.set_single("genre", genre);
        let id = if nfo.imdb_id.unicode_len() > 0 {
            nfo.imdb_id.clone()
        } else if nfo.unique_ids.len() > 0 {
            nfo.unique_ids[0].value.clone()
        } else {
            unknown_text()
        };
        self.set_single("id", id);
        Ok(())
    }

    /// Bind one variable to a single value.
    fn set_single(&mut self, name: &str, value: String)
        requires
            old(self).wf(),
        ensures
            final(self).wf(),
            final(self).variables@ == old(self).variables@.insert(name@, seq![value@]),
    {
        let mut single: Vec<String> = Vec::new();
        single.push(value);
        proof {
            assert(single.deep_view() =~= seq![single@[0]@]);
        }
        self.variables.set(name, single);
    }

    /// Parse a naming template under a strategy: the primary path, and one
    /// additional path per further performer when links are asked for and
    /// the template mentions `$actor$`.
    pub fn parse_template(&self, template: &str, strategy: MultiActorStrategy) -> (r: Result<
        ParseResult,
        CrawlerErr,
    >)
        requires
            self.wf(),
        ensures
            r matches Ok(p) ==> {
                &&& p.strategy == strategy
                &&& ((strategy == MultiActorStrategy::FirstOnly || strategy
                    == MultiActorStrategy::Merge) ==> p.additional_paths@.len() == 0)
                &&& (strategy != MultiActorStrategy::Merge ==> tp_subst(
                    template@,
                    self.vars_view(),
                    None,
                ) == Ok::<Seq<char>, ErrView>(p.primary_path@))
                &&& (strategy == MultiActorStrategy::Merge ==> tp_subst(
                    template@,
                    self.vars_view(),
                    Some(merge_value(self.vars_view())),
                ) == Ok::<Seq<char>, ErrView>(p.primary_path@))
            },
    {
        let primary = match strategy {
            MultiActorStrategy::Merge => {
                let merged: String = match self.variables.get("all_actors") {
                    Some(values) => {
                        proof {
                            assert(values.deep_view().len() == values@.len());
                        }
                        if values.len() >= 1 && values[0].unicode_len() > 0 {
                            proof {
                                assert(values.deep_view()[0] == values@[0]@);
                            }
                            let ghost from_lit = ","@;
                            let ghost to_lit = " & "@;
                            proof {
                                reveal_strlit(",");
                                reveal_strlit(" & ");
                                assert(from_lit =~= seq![',']);
                                assert(to_lit =~= seq![' ', '&', ' ']);
                            }
                            let sv = str_chars(values[0].as_str());
                            let from = str_chars(",");
                            let to = str_chars(" & ");
                            crate::text::chars_to_string(
                                &crate::text::replace_chars(&sv, &from, &to),
                            )
                        } else {
                            unknown_text()
                        }
                    },
                    None => unknown_text(),
                };
                proof {
                    assert(merged@ == merge_value(self.vars_view()));
                }
                tp_substitute(template, &self.variables, Some(&merged))?
            },
            _ => tp_substitute(template, &self.variables, None)?,
        };
        let additional: Vec<String> = match strategy {
            MultiActorStrategy::HardLink | MultiActorStrategy::SymLink => {
                self.additional_paths(template)?
            },
            _ => Vec::new(),
        };
        Ok(ParseResult { primary_path: primary, additional_paths: additional, strategy })
    }

    /// The additional paths: one per performer after the first, when the
    /// template mentions `$actor$` and more than one performer is bound.
    fn additional_paths(&self, template: &str) -> (r: Result<Vec<String>, CrawlerErr>)
        requires
            self.wf(),
    {
        if !contains_actor_placeholder(template) {
            return Ok(Vec::new());
        }
        let all: String = match self.variables.get("all_actors") {
            Some(values) => {
                if values.len() >= 1 {
                    values[0].clone()
                } else {
                    String::new()
                }
            },
            None => String::new(),
        };
        if all.unicode_len() == 0 {
            return Ok(Vec::new());
        }
        let actors = split_commas(all.as_str());
        if actors.len() <= 1 {
            return Ok(Vec::new());
        }
        let mut out: Vec<String> = Vec::new();
        let mut k: usize = 1;
        while k < actors.len()
            invariant
                1 <= k <= actors@.len(),
                self.wf(),
            decreases actors@.len() - k,
        {
            let path = tp_substitute(template, &self.variables, Some(&actors[k]))?;
            out.push(path);
            k = k + 1;
        }
        Ok(out)
    }

    /// The placeholder names a template may use.
    pub fn get_available_variables() -> (r: Vec<String>)
        ensures
            r.deep_view() == seq![
                "title"@,
                "original_title"@,
                "year"@,
                "series"@,
                "actor"@,
                "director"@,
                "studio"@,
                "genre"@,
                "id"@,
            ],
    {
        let mut v: Vec<String> = Vec::new();
        push_name(&mut v, "title");
        push_name(&mut v, "original_title");
        push_name(&mut v, "year");
        push_name(&mut v, "series");
        push_name(&mut v, "actor");
        push_name(&mut v, "director");
        push_name(&mut v, "studio");
        push_name(&mut v, "genre");
        push_name(&mut v, "id");
        proof {
            assert(v.deep_view() =~= seq![
                "title"@,
                "original_title"@,
                "year"@,
                "series"@,
                "actor"@,
                "director"@,
                "studio"@,
                "genre"@,
                "id"@,
            ]);
        }
        v
    }

    /// A file-name segment cleaned of illegal characters, with `Unknown`
    /// for an empty result.
    pub fn sanitize_filename(&self, filename: &str) -> (r: String)
        ensures
            r@ == segment_spec(filename@),
    {
        segment_text(filename)
    }
}

impl Default for TemplateParser {
    fn default() -> (r: TemplateParser)
        ensures
            r.wf(),
    {
        TemplateParser::new()
    }
}

fn push_name(v: &mut Vec<String>, s: &str)
    ensures
        final(v).deep_view() == old(v).deep_view().push(s@),
{
    let mut owned = String::new();
    owned.append(s);
    v.push(owned);
    proof {
        assert(final(v).deep_view() =~= old(v).deep_view().push(s@));
    }
}

/// The literal `Unknown`.
fn unknown_text() -> (r: String)
    ensures
        r@ == "Unknown"@,
{
    let mut u = String::new();
    u.append("Unknown");
    u
}

/// All performer names joined by commas, computed.
fn join_actor_names(actors: &Vec<crate::nfo::Actor>) -> (r: String)
    ensures
        r@ == joined_actors(actors@),
{
    let mut out: Vec<char> = Vec::new();
    let mut k: usize = 0;
    while k < actors.len()
        invariant
            k <= actors@.len(),
            out@ == joined_actors(actors@.take(k as int)),
        decreases actors@.len() - k,
    {
        if k > 0 {
            out.push(',');
        }
        crate::parser::push_str_chars(&mut out, actors[k].name.as_str());
        proof {
            assert(actors@.take(k + 1).drop_last() =~= actors@.take(k as int));
            assert(actors@.take(k + 1).last() == actors@[k as int]);
            if k == 0 {
                assert(actors@.take(1).len() == 1);
                assert(actors@.take(1)[0] == actors@[0]);
                assert(out@ =~= joined_actors(actors@.take(1)));
            } else {
                assert(out@ =~= joined_actors(actors@.take(k as int)) + seq![',']
                    + actors@[k as int].name@);
            }
        }
        k = k + 1;
    }
    proof {
        assert(actors@.take(actors@.len() as int) =~= actors@);
    }
    crate::text::chars_to_string(&out)
}

/// A signed number spelled in decimal, computed.
fn int_text(v: i32) -> (r: String)
    ensures
        r@ == int_str_spec(v as int),
{
    let mut out: Vec<char> = Vec::new();
    if v >= 0 {
        crate::parser::push_decimal(&mut out, v as usize);
        proof {
            assert(v as usize as nat == (v as int) as nat);
            assert(out@ =~= int_str_spec(v as int));
        }
    } else {
        out.push('-');
        let mag: usize = if v == i32::MIN {
            2147483648
        } else {
            (-v) as usize
        };
        proof {
            assert(mag as nat == (-(v as int)) as nat);
        }
        crate::parser::push_decimal(&mut out, mag);
        proof {
            assert(out@ =~= int_str_spec(v as int));
        }
    }
    crate::text::chars_to_string(&out)
}

/// Whether the template mentions the `$actor$` placeholder.
fn contains_actor_placeholder(template: &str) -> (r: bool) {
    let s = str_chars(template);
    if s.len() < 7 {
        return false;
    }
    let mut i: usize = 0;
    while i <= s.len() - 7
        invariant
            s@.len() >= 7,
            i <= s@.len(),
        decreases s@.len() - i,
    {
        if s[i] == '$' && s[i + 1] == 'a' && s[i + 2] == 'c' && s[i + 3] == 't' && s[i + 4] == 'o'
            && s[i + 5] == 'r' && s[i + 6] == '$' {
            return true;
        }
        i = i + 1;
    }
    false
}

} // verus!
