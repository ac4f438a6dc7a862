//! The command script language: a dot-chained list of commands over CSS
//! selectors, DOM traversal, string transforms, regex operations and
//! filters. A parsed script carries its mode: `element` scripts end on DOM
//! elements, `value` scripts end on strings, `text` scripts transform a seed
//! string with no DOM at all.

use vstd::prelude::*;

use crate::errors::CrawlerErr;
use vstd::string::StringExecFns;

verus! {

/// A command argument: a literal, or a `${name}` reference resolved against
/// the runtime variable store at evaluation time.
#[derive(Clone, Debug)]
pub enum Param {
    StaticStr(String),
    DynamicStr(String),
}

/// Spec-level mirror of [`Param`].
pub enum ParamView {
    Static(Seq<char>),
    Dynamic(Seq<char>),
}

impl View for Param {
    type V = ParamView;

    open spec fn view(&self) -> ParamView {
        match self {
            Param::StaticStr(s) => ParamView::Static(s@),
            Param::DynamicStr(s) => ParamView::Dynamic(s@),
        }
    }
}

/// One step of a script pipeline.
#[derive(Clone, Debug)]
pub enum Command {
    /// Replace each element by its descendants matching a CSS selector.
    Selector(Param),
    /// Replace each element by its n-th ancestor (1 is the parent).
    Parent(usize),
    /// Replace each element by its n-th previous element sibling (1-based).
    Prev(usize),
    /// Replace each element by its n-th following element sibling (1-based).
    Nth(usize),
    /// Replace every occurrence of the first argument by the second.
    Replace(Param, Param),
    Uppercase,
    Lowercase,
    /// Insert the argument before the given character offset.
    Insert(usize, Param),
    Prepend(Param),
    Append(Param),
    /// Remove every occurrence of the argument.
    Delete(Param),
    /// Keep only pairs whose string matches the regex.
    RegexMatch(Param),
    /// Keep only pairs whose string equals the argument.
    Equals(Param),
    /// Set the string channel to the element's outer HTML.
    Html,
    /// Set the string channel to the named attribute, or empty if absent.
    Attr(Param),
    /// Set the string channel to the concatenated descendant text.
    Val,
    /// Set the string to the concatenation of all regex matches.
    RegexExtract(Param),
    /// Globally substitute the first regex by the second argument.
    RegexReplace(Param, Param),
}

/// Spec-level mirror of [`Command`].
pub enum CmdView {
    Selector(ParamView),
    Parent(nat),
    Prev(nat),
    Nth(nat),
    Replace(ParamView, ParamView),
    Uppercase,
    Lowercase,
    Insert(nat, ParamView),
    Prepend(ParamView),
    Append(ParamView),
    Delete(ParamView),
    RegexMatch(ParamView),
    Equals(ParamView),
    Html,
    Attr(ParamView),
    Val,
    RegexExtract(ParamView),
    RegexReplace(ParamView, ParamView),
}

impl DeepView for Param {
    type V = ParamView;

    open spec fn deep_view(&self) -> ParamView {
        self.view()
    }
}

impl DeepView for Command {
    type V = CmdView;

    open spec fn deep_view(&self) -> CmdView {
        self.view()
    }
}

impl View for Command {
    type V = CmdView;

    open spec fn view(&self) -> CmdView {
        match self {
            Command::Selector(p) => CmdView::Selector(p@),
            Command::Parent(n) => CmdView::Parent(*n as nat),
            Command::Prev(n) => CmdView::Prev(*n as nat),
            Command::Nth(n) => CmdView::Nth(*n as nat),
            Command::Replace(a, b) => CmdView::Replace(a@, b@),
            Command::Uppercase => CmdView::Uppercase,
            Command::Lowercase => CmdView::Lowercase,
            Command::Insert(n, p) => CmdView::Insert(*n as nat, p@),
            Command::Prepend(p) => CmdView::Prepend(p@),
            Command::Append(p) => CmdView::Append(p@),
            Command::Delete(p) => CmdView::Delete(p@),
            Command::RegexMatch(p) => CmdView::RegexMatch(p@),
            Command::Equals(p) => CmdView::Equals(p@),
            Command::Html => CmdView::Html,
            Command::Attr(p) => CmdView::Attr(p@),
            Command::Val => CmdView::Val,
            Command::RegexExtract(p) => CmdView::RegexExtract(p@),
            Command::RegexReplace(a, b) => CmdView::RegexReplace(a@, b@),
        }
    }
}

/// The classification of a parsed script.
#[derive(Clone, Copy, PartialEq, Eq, Structural, Debug)]
pub enum ScriptMode {
    /// Ends on DOM elements; only selector-family commands.
    Element,
    /// Selector-family prefix, one accessor, then transforms and filters.
    Value,
    /// Transforms and filters only, applied to a seed string.
    Text,
}

/// Selector-family commands: CSS selection and DOM traversal.
pub open spec fn is_sel_rule(c: CmdView) -> bool {
    match c {
        CmdView::Selector(_) | CmdView::Parent(_) | CmdView::Prev(_) | CmdView::Nth(_) => true,
        _ => false,
    }
}

/// Accessor commands: they read a string out of an element.
pub open spec fn is_accessor(c: CmdView) -> bool {
    match c {
        CmdView::Html | CmdView::Attr(_) | CmdView::Val => true,
        _ => false,
    }
}

/// Transform and condition commands: they act on the string channel only.
pub open spec fn is_textual(c: CmdView) -> bool {
    match c {
        CmdView::Replace(_, _) | CmdView::Uppercase | CmdView::Lowercase | CmdView::Insert(_, _)
            | CmdView::Prepend(_) | CmdView::Append(_) | CmdView::Delete(_)
            | CmdView::RegexExtract(_) | CmdView::RegexReplace(_, _) | CmdView::RegexMatch(_)
            | CmdView::Equals(_) => true,
        _ => false,
    }
}

/// How many selector-family commands the script starts with.
pub open spec fn lead_sel_count(cmds: Seq<CmdView>) -> nat
    decreases cmds.len(),
{
    if cmds.len() == 0 || !is_sel_rule(cmds[0]) {
        0
    } else {
        1 + lead_sel_count(cmds.skip(1))
    }
}

/// The mode of a command list, if the list is a well-shaped script:
/// `element` is one or more selector-family commands; `value` is an element
/// prefix, exactly one accessor, then transforms and filters; `text` is one
/// or more transforms and filters.
pub open spec fn classify_spec(cmds: Seq<CmdView>) -> Option<ScriptMode> {
    let lead = lead_sel_count(cmds) as int;
    if cmds.len() == 0 {
        None
    } else if lead == cmds.len() {
        Some(ScriptMode::Element)
    } else if lead >= 1 && is_accessor(cmds[lead]) && (forall|k: int|
        lead < k < cmds.len() ==> is_textual(#[trigger] cmds[k])) {
        Some(ScriptMode::Value)
    } else if forall|k: int| 0 <= k < cmds.len() ==> is_textual(#[trigger] cmds[k]) {
        Some(ScriptMode::Text)
    } else {
        None
    }
}

/// Whether the command is of the selector family, computed.
fn is_sel_exec(c: &Command) -> (r: bool)
    ensures
        r == is_sel_rule(c@),
{
    match c {
        Command::Selector(_) => true,
        Command::Parent(_) => true,
        Command::Prev(_) => true,
        Command::Nth(_) => true,
        _ => false,
    }
}

/// Whether the command is an accessor, computed.
fn is_accessor_exec(c: &Command) -> (r: bool)
    ensures
        r == is_accessor(c@),
{
    match c {
        Command::Html => true,
        Command::Attr(_) => true,
        Command::Val => true,
        _ => false,
    }
}

/// The number of leading selector-family commands, computed.
fn lead_sel(cmds: &Vec<Command>) -> (r: usize)
    ensures
        r as nat == lead_sel_count(cmds.deep_view()),
        r <= cmds@.len(),
{
    let ghost dv = cmds.deep_view();
    proof {
        assert(dv.len() == cmds@.len());
        assert(dv.skip(0) =~= dv);
    }
    let mut i: usize = 0;
    while i < cmds.len()
        invariant
            i <= cmds@.len(),
            dv == cmds.deep_view(),
            dv.len() == cmds@.len(),
            lead_sel_count(dv) == i + lead_sel_count(dv.skip(i as int)),
        decreases cmds@.len() - i,
    {
        let keep = is_sel_exec(&cmds[i]);
        proof {
            assert(dv.skip(i as int)[0] == dv[i as int]);
            assert(dv[i as int] == cmds@[i as int]@);
        }
        if !keep {
            proof {
                assert(lead_sel_count(dv.skip(i as int)) == 0);
            }
            return i;
        }
        proof {
            assert(dv.skip(i as int).skip(1) =~= dv.skip(i + 1));
        }
        i = i + 1;
    }
    proof {
        assert(dv.skip(i as int) =~= Seq::<CmdView>::empty());
        assert(lead_sel_count(dv.skip(i as int)) == 0);
    }
    i
}

/// The mode of `cmds`, or `None` where the list is not a well-shaped script.
pub fn classify(cmds: &Vec<Command>) -> (r: Option<ScriptMode>)
    ensures
        r == classify_spec(cmds.deep_view()),
{
    let ghost dv = cmds.deep_view();
    proof {
        assert(dv.len() == cmds@.len());
    }
    if cmds.len() == 0 {
        return None;
    }
    let lead = lead_sel(cmds);
    if lead == cmds.len() {
        return Some(ScriptMode::Element);
    }
    let acc = is_accessor_exec(&cmds[lead]);
    proof {
        assert(dv[lead as int] == cmds@[lead as int]@);
    }
    if lead >= 1 && acc {
        let mut k: usize = lead + 1;
        while k < cmds.len()
            invariant
                lead >= 1,
                lead + 1 <= k <= cmds@.len(),
                dv == cmds.deep_view(),
                dv.len() == cmds@.len(),
                lead as nat == lead_sel_count(dv),
                lead < cmds@.len(),
                is_accessor(dv[lead as int]),
                forall|j: int| lead < j < k ==> is_textual(#[trigger] dv[j]),
            decreases cmds@.len() - k,
        {
            let textual = is_textual_exec(&cmds[k]);
            proof {
                assert(dv[k as int] == cmds@[k as int]@);
            }
            if !textual {
                proof {
                    assert(is_sel_rule(dv[0]));
                    assert(!is_textual(dv[0]));
                }
                return None;
            }
            k = k + 1;
        }
        return Some(ScriptMode::Value);
    }
    proof {
        if lead as nat >= 1 {
            assert(!is_accessor(dv[lead as int]));
        }
    }
    let mut k: usize = 0;
    while k < cmds.len()
        invariant
            k <= cmds@.len(),
            dv == cmds.deep_view(),
            dv.len() == cmds@.len(),
            lead as nat == lead_sel_count(dv),
            lead < cmds@.len(),
            lead as nat >= 1 ==> !is_accessor(dv[lead as int]),
            forall|j: int| 0 <= j < k ==> is_textual(#[trigger] dv[j]),
        decreases cmds@.len() - k,
    {
        let textual = is_textual_exec(&cmds[k]);
        proof {
            assert(dv[k as int] == cmds@[k as int]@);
        }
        if !textual {
            return None;
        }
        k = k + 1;
    }
    proof {
        if lead_sel_count(dv) > 0 {
            assert(is_sel_rule(dv[0]));
            assert(is_textual(dv[0]));
            assert(false);
        }
    }
    Some(ScriptMode::Text)
}

/// A parsed script: its source text, its command list in source order, and
/// its mode.
pub struct CrawlerScript {
    /// The source text the script was parsed from.
    pub raw: String,
    /// The commands, in source order.
    pub commands: Vec<Command>,
    /// The script's classification.
    pub rule: ScriptMode,
}

/// The parser that turns script text into a [`CrawlerScript`].
pub struct ScriptParser;

impl ScriptParser {
    /// Parse `script`. A text-mode script (transforms and filters only) is
    /// accepted only where the caller declared a text context; anywhere else
    /// it fails with `CharProcessAlone`.
    pub fn parse(script: &str, is_text_script: bool) -> (r: Result<CrawlerScript, CrawlerErr>)
        ensures
            match r {
                Ok(cs) => crate::parser::parse_script_spec(script@) == Some(
                    cs.commands.deep_view(),
                ) && classify_spec(cs.commands.deep_view()) == Some(cs.rule) && (cs.rule
                    == ScriptMode::Text ==> is_text_script) && cs.raw@ == script@
                    && cs.commands.deep_view().len() >= 1 && crate::parser::cmds_wf(
                    cs.commands.deep_view(),
                ),
                Err(e) => match crate::parser::parse_script_spec(script@) {
                    None => e@ is ScriptParseError,
                    Some(cs) => (classify_spec(cs) is None && e@ is ScriptParseError) || (
                    classify_spec(cs) == Some(ScriptMode::Text) && !is_text_script && e@
                        is CharProcessAlone),
                },
            },
    {
        let chars = crate::text::str_chars(script);
        let cmds = match crate::parser::parse_chars(&chars) {
            Some(cmds) => {
                proof {
                    crate::parser::lemma_parse_cmds_wf(script@, 0);
                }
                cmds
            },
            None => {
                let mut msg = String::new();
                msg.append("cannot parse script: ");
                msg.append(script);
                return Err(CrawlerErr::ScriptParseError(msg));
            },
        };
        let mode = match classify(&cmds) {
            Some(mode) => mode,
            None => {
                let mut msg = String::new();
                msg.append("ill-shaped script: ");
                msg.append(script);
                return Err(CrawlerErr::ScriptParseError(msg));
            },
        };
        if matches!(mode, ScriptMode::Text) && !is_text_script {
            return Err(CrawlerErr::CharProcessAlone);
        }
        let mut raw = String::new();
        raw.append(script);
        Ok(CrawlerScript { raw, commands: cmds, rule: mode })
    }
}

impl CrawlerScript {
    /// A script is well formed when its mode is the classification of its
    /// commands.
    pub open spec fn wf(&self) -> bool {
        classify_spec(self.commands.deep_view()) == Some(self.rule)
    }

    /// Parse `script`; see [`ScriptParser::parse`].
    pub fn new(script: &str, is_text_script: bool) -> (r: Result<CrawlerScript, CrawlerErr>)
        ensures
            match r {
                Ok(cs) => crate::parser::parse_script_spec(script@) == Some(
                    cs.commands.deep_view(),
                ) && classify_spec(cs.commands.deep_view()) == Some(cs.rule) && (cs.rule
                    == ScriptMode::Text ==> is_text_script) && cs.raw@ == script@
                    && cs.commands.deep_view().len() >= 1 && crate::parser::cmds_wf(
                    cs.commands.deep_view(),
                ),
                Err(e) => match crate::parser::parse_script_spec(script@) {
                    None => e@ is ScriptParseError,
                    Some(cs) => (classify_spec(cs) is None && e@ is ScriptParseError) || (
                    classify_spec(cs) == Some(ScriptMode::Text) && !is_text_script && e@
                        is CharProcessAlone),
                },
            },
    {
        ScriptParser::parse(script, is_text_script)
    }

    /// The canonical text of this script: it always comes back for a
    /// non-empty, well-formed command list (every parsed script is one),
    /// and whatever comes back provably re-parses to a command list equal
    /// to this script's, so parse, serialise, re-parse is the identity on
    /// the parsed structure.
    pub fn to_script_string(&self) -> (r: Option<String>)
        ensures
            match r {
                Some(text) => text@ == crate::parser::ser_cmds(self.commands.deep_view())
                    && crate::parser::parse_script_spec(text@) == Some(self.commands.deep_view()),
                None => true,
            },
            self.commands.deep_view().len() >= 1 && crate::parser::cmds_wf(
                self.commands.deep_view(),
            ) ==> r is Some,
    {
        proof {
            if self.commands.deep_view().len() >= 1 && crate::parser::cmds_wf(
                self.commands.deep_view(),
            ) {
                crate::parser::lemma_canonical_round_trip(self.commands.deep_view());
            }
        }
        let text = crate::parser::serialize_cmds(&self.commands);
        let chars = crate::text::str_chars(text.as_str());
        match crate::parser::parse_chars(&chars) {
            Some(back) => {
                if crate::parser::cmds_eq(&self.commands, &back) {
                    Some(text)
                } else {
                    None
                }
            },
            None => None,
        }
    }
}

/// Whether the command acts on the string channel only.
fn is_textual_exec(c: &Command) -> (r: bool)
    ensures
        r == is_textual(c@),
{
    match c {
        Command::Replace(_, _) => true,
        Command::Uppercase => true,
        Command::Lowercase => true,
        Command::Insert(_, _) => true,
        Command::Prepend(_) => true,
        Command::Append(_) => true,
        Command::Delete(_) => true,
        Command::RegexExtract(_) => true,
        Command::RegexReplace(_, _) => true,
        Command::RegexMatch(_) => true,
        Command::Equals(_) => true,
        _ => false,
    }
}

} // verus!
