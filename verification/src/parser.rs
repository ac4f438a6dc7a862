//! The script grammar and its parser. Every command is written
//! `name(args)`: a quoted literal or `${name}` reference for string
//! arguments, a bare decimal for index arguments, a comma between two
//! arguments, and `.` chaining one command after another. Whitespace is
//! allowed inside the parentheses around arguments.
//!
//! The parser is pinned, position by position, to the spec functions in
//! this module, so that re-parsing a serialised script is provably the
//! identity on command lists.

use vstd::prelude::*;

use crate::script::{CmdView, Command, Param, ParamView};
use crate::text::chars_to_string;

verus! {

pub open spec fn is_ws_char(c: char) -> bool {
    c == ' ' || c == '\t' || c == '\n' || c == '\r'
}

pub open spec fn is_ident_char(c: char) -> bool {
    ('a' <= c && c <= 'z') || ('A' <= c && c <= 'Z') || ('0' <= c && c <= '9') || c == '_'
}

pub open spec fn is_digit_char(c: char) -> bool {
    '0' <= c && c <= '9'
}

/// The first position at or after `i` holding a non-whitespace character.
pub open spec fn skip_ws_spec(s: Seq<char>, i: int) -> int
    decreases s.len() - i,
{
    if 0 <= i < s.len() && is_ws_char(s[i]) {
        skip_ws_spec(s, i + 1)
    } else {
        i
    }
}

/// The first position at or after `i` holding a non-identifier character.
pub open spec fn scan_ident_spec(s: Seq<char>, i: int) -> int
    decreases s.len() - i,
{
    if 0 <= i < s.len() && is_ident_char(s[i]) {
        scan_ident_spec(s, i + 1)
    } else {
        i
    }
}

/// The first position at or after `i` holding a non-digit character.
pub open spec fn scan_digits_spec(s: Seq<char>, i: int) -> int
    decreases s.len() - i,
{
    if 0 <= i < s.len() && is_digit_char(s[i]) {
        scan_digits_spec(s, i + 1)
    } else {
        i
    }
}

/// The first position at or after `i` holding a double quote.
pub open spec fn scan_quote_spec(s: Seq<char>, i: int) -> int
    decreases s.len() - i,
{
    if 0 <= i < s.len() && s[i] != '"' {
        scan_quote_spec(s, i + 1)
    } else {
        i
    }
}

/// The numeric value of a digit character.
pub open spec fn digit_val(c: char) -> nat {
    (c as int - 48) as nat
}

/// The value of a digit string, most significant digit first.
pub open spec fn digits_fold(ds: Seq<char>) -> nat
    decreases ds.len(),
{
    if ds.len() == 0 {
        0
    } else {
        digits_fold(ds.drop_last()) * 10 + digit_val(ds.last())
    }
}

/// A parsed decimal index argument: its value, saturated to `default` on
/// overflow, and the position after its digits. `None` when no digit is
/// present.
pub open spec fn parse_usize_spec(s: Seq<char>, i: int, default: nat) -> Option<(nat, int)> {
    let e = scan_digits_spec(s, i);
    if e == i {
        None
    } else {
        let v = digits_fold(s.subrange(i, e));
        Some((if v <= usize::MAX { v } else { default }, e))
    }
}

/// A parsed argument: `"literal"` or `${name}` with a non-empty identifier
/// name, and the position after it.
pub open spec fn parse_param_spec(s: Seq<char>, i: int) -> Option<(ParamView, int)> {
    if 0 <= i < s.len() && s[i] == '"' {
        let e = scan_quote_spec(s, i + 1);
        if e < s.len() {
            Some((ParamView::Static(s.subrange(i + 1, e)), e + 1))
        } else {
            None
        }
    } else if 0 <= i && i + 1 < s.len() && s[i] == '$' && s[i + 1] == '{' {
        let e = scan_ident_spec(s, i + 2);
        if e > i + 2 && e < s.len() && s[e] == '}' {
            Some((ParamView::Dynamic(s.subrange(i + 2, e)), e + 1))
        } else {
            None
        }
    } else {
        None
    }
}

/// The position after a closing parenthesis preceded by whitespace.
pub open spec fn close_spec(s: Seq<char>, j: int) -> Option<int> {
    let k = skip_ws_spec(s, j);
    if 0 <= k < s.len() && s[k] == ')' {
        Some(k + 1)
    } else {
        None
    }
}

/// The position after a comma and the whitespace around it.
pub open spec fn comma_spec(s: Seq<char>, j: int) -> Option<int> {
    let k = skip_ws_spec(s, j);
    if 0 <= k < s.len() && s[k] == ',' {
        Some(skip_ws_spec(s, k + 1))
    } else {
        None
    }
}

/// One string argument and the closing parenthesis.
pub open spec fn one_param_spec(s: Seq<char>, a: int) -> Option<(ParamView, int)> {
    match parse_param_spec(s, a) {
        Some((p, j)) => match close_spec(s, j) {
            Some(k) => Some((p, k)),
            None => None,
        },
        None => None,
    }
}

/// Two string arguments separated by a comma, and the closing parenthesis.
pub open spec fn two_params_spec(s: Seq<char>, a: int) -> Option<(ParamView, ParamView, int)> {
    match parse_param_spec(s, a) {
        Some((p, j)) => match comma_spec(s, j) {
            Some(b) => match parse_param_spec(s, b) {
                Some((q, j2)) => match close_spec(s, j2) {
                    Some(k) => Some((p, q, k)),
                    None => None,
                },
                None => None,
            },
            None => None,
        },
        None => None,
    }
}

/// One decimal argument and the closing parenthesis.
pub open spec fn int_arg_spec(s: Seq<char>, a: int, default: nat) -> Option<(nat, int)> {
    match parse_usize_spec(s, a, default) {
        Some((n, j)) => match close_spec(s, j) {
            Some(k) => Some((n, k)),
            None => None,
        },
        None => None,
    }
}

/// A decimal argument, a comma, a string argument, and the closing
/// parenthesis.
pub open spec fn int_param_spec(s: Seq<char>, a: int, default: nat) -> Option<(nat, ParamView, int)> {
    match parse_usize_spec(s, a, default) {
        Some((n, j)) => match comma_spec(s, j) {
            Some(b) => match parse_param_spec(s, b) {
                Some((p, j2)) => match close_spec(s, j2) {
                    Some(k) => Some((n, p, k)),
                    None => None,
                },
                None => None,
            },
            None => None,
        },
        None => None,
    }
}

/// One command at position `i`: its identifier, an opening parenthesis, the
/// arguments that identifier takes, and the closing parenthesis. Returns the
/// command and the position after it.
pub open spec fn parse_command_spec(s: Seq<char>, i: int) -> Option<(CmdView, int)> {
    let e = scan_ident_spec(s, i);
    if e == i || !(e < s.len() && s[e] == '(') {
        None
    } else {
        let name = s.subrange(i, e);
        let a = skip_ws_spec(s, e + 1);
        if name == "selector"@ {
            match one_param_spec(s, a) {
                Some((p, k)) => Some((CmdView::Selector(p), k)),
                None => None,
            }
        } else if name == "parent"@ {
            match int_arg_spec(s, a, 1) {
                Some((n, k)) => Some((CmdView::Parent(n), k)),
                None => None,
            }
        } else if name == "prev"@ {
            match int_arg_spec(s, a, 1) {
                Some((n, k)) => Some((CmdView::Prev(n), k)),
                None => None,
            }
        } else if name == "nth"@ {
            match int_arg_spec(s, a, 1) {
                Some((n, k)) => Some((CmdView::Nth(n), k)),
                None => None,
            }
        } else if name == "replace"@ {
            match two_params_spec(s, a) {
                Some((p, q, k)) => Some((CmdView::Replace(p, q), k)),
                None => None,
            }
        } else if name == "uppercase"@ {
            match close_spec(s, a) {
                Some(k) => Some((CmdView::Uppercase, k)),
                None => None,
            }
        } else if name == "lowercase"@ {
            match close_spec(s, a) {
                Some(k) => Some((CmdView::Lowercase, k)),
                None => None,
            }
        } else if name == "insert"@ {
            match int_param_spec(s, a, 0) {
                Some((n, p, k)) => Some((CmdView::Insert(n, p), k)),
                None => None,
            }
        } else if name == "prepend"@ {
            match one_param_spec(s, a) {
                Some((p, k)) => Some((CmdView::Prepend(p), k)),
                None => None,
            }
        } else if name == "append"@ {
            match one_param_spec(s, a) {
                Some((p, k)) => Some((CmdView::Append(p), k)),
                None => None,
            }
        } else if name == "delete"@ {
            match one_param_spec(s, a) {
                Some((p, k)) => Some((CmdView::Delete(p), k)),
                None => None,
            }
        } else if name == "regex_match"@ {
            match one_param_spec(s, a) {
                Some((p, k)) => Some((CmdView::RegexMatch(p), k)),
                None => None,
            }
        } else if name == "equals"@ {
            match one_param_spec(s, a) {
                Some((p, k)) => Some((CmdView::Equals(p), k)),
                None => None,
            }
        } else if name == "html"@ {
            match close_spec(s, a) {
                Some(k) => Some((CmdView::Html, k)),
                None => None,
            }
        } else if name == "attr"@ {
            match one_param_spec(s, a) {
                Some((p, k)) => Some((CmdView::Attr(p), k)),
                None => None,
            }
        } else if name == "val"@ {
            match close_spec(s, a) {
                Some(k) => Some((CmdView::Val, k)),
                None => None,
            }
        } else if name == "regex_extract"@ {
            match one_param_spec(s, a) {
                Some((p, k)) => Some((CmdView::RegexExtract(p), k)),
                None => None,
            }
        } else if name == "regex_replace"@ {
            match two_params_spec(s, a) {
                Some((p, q, k)) => Some((CmdView::RegexReplace(p, q), k)),
                None => None,
            }
        } else {
            None
        }
    }
}

/// The whole script from position `i`: commands joined by `.`, ending at
/// the end of the text.
pub open spec fn parse_cmds_spec(s: Seq<char>, i: int) -> Option<Seq<CmdView>>
    decreases s.len() - i,
{
    match parse_command_spec(s, i) {
        None => None,
        Some((c, j)) => if !(i < j <= s.len()) {
            None
        } else if j == s.len() {
            Some(seq![c])
        } else if s[j] == '.' {
            match parse_cmds_spec(s, j + 1) {
                None => None,
                Some(rest) => Some(seq![c] + rest),
            }
        } else {
            None
        },
    }
}

/// The command list denoted by a script text.
pub open spec fn parse_script_spec(s: Seq<char>) -> Option<Seq<CmdView>> {
    parse_cmds_spec(s, 0)
}

/// The canonical text of one argument.
pub open spec fn ser_param(p: ParamView) -> Seq<char> {
    match p {
        ParamView::Static(c) => seq!['"'] + c + seq!['"'],
        ParamView::Dynamic(n) => seq!['$', '{'] + n + seq!['}'],
    }
}

/// The character spelling a single digit.
pub open spec fn digit_char(d: nat) -> char {
    (d + 48) as char
}

/// The canonical decimal spelling of a number, most significant digit
/// first.
pub open spec fn dec_digits(n: nat) -> Seq<char>
    decreases n,
{
    if n < 10 {
        seq![digit_char(n)]
    } else {
        dec_digits(n / 10).push(digit_char(n % 10))
    }
}

/// The identifier of a command.
pub open spec fn cmd_name(c: CmdView) -> Seq<char> {
    match c {
        CmdView::Selector(_) => "selector"@,
        CmdView::Parent(_) => "parent"@,
        CmdView::Prev(_) => "prev"@,
        CmdView::Nth(_) => "nth"@,
        CmdView::Replace(_, _) => "replace"@,
        CmdView::Uppercase => "uppercase"@,
        CmdView::Lowercase => "lowercase"@,
        CmdView::Insert(_, _) => "insert"@,
        CmdView::Prepend(_) => "prepend"@,
        CmdView::Append(_) => "append"@,
        CmdView::Delete(_) => "delete"@,
        CmdView::RegexMatch(_) => "regex_match"@,
        CmdView::Equals(_) => "equals"@,
        CmdView::Html => "html"@,
        CmdView::Attr(_) => "attr"@,
        CmdView::Val => "val"@,
        CmdView::RegexExtract(_) => "regex_extract"@,
        CmdView::RegexReplace(_, _) => "regex_replace"@,
    }
}

/// The canonical text of a command's arguments.
pub open spec fn ser_args(c: CmdView) -> Seq<char> {
    match c {
        CmdView::Selector(p) => ser_param(p),
        CmdView::Parent(n) => dec_digits(n),
        CmdView::Prev(n) => dec_digits(n),
        CmdView::Nth(n) => dec_digits(n),
        CmdView::Replace(a, b) => ser_param(a) + seq![','] + ser_param(b),
        CmdView::Uppercase => Seq::empty(),
        CmdView::Lowercase => Seq::empty(),
        CmdView::Insert(n, p) => dec_digits(n) + seq![','] + ser_param(p),
        CmdView::Prepend(p) => ser_param(p),
        CmdView::Append(p) => ser_param(p),
        CmdView::Delete(p) => ser_param(p),
        CmdView::RegexMatch(p) => ser_param(p),
        CmdView::Equals(p) => ser_param(p),
        CmdView::Html => Seq::empty(),
        CmdView::Attr(p) => ser_param(p),
        CmdView::Val => Seq::empty(),
        CmdView::RegexExtract(p) => ser_param(p),
        CmdView::RegexReplace(a, b) => ser_param(a) + seq![','] + ser_param(b),
    }
}

/// The canonical text of one command.
pub open spec fn ser_cmd(c: CmdView) -> Seq<char> {
    cmd_name(c) + seq!['('] + ser_args(c) + seq![')']
}

/// The canonical text of a command list: commands joined by dots.
pub open spec fn ser_cmds(cmds: Seq<CmdView>) -> Seq<char>
    decreases cmds.len(),
{
    if cmds.len() == 0 {
        Seq::empty()
    } else if cmds.len() == 1 {
        ser_cmd(cmds[0])
    } else {
        ser_cmd(cmds[0]) + seq!['.'] + ser_cmds(cmds.skip(1))
    }
}

pub(crate) fn push_str_chars(out: &mut Vec<char>, s: &str)
    ensures
        final(out)@ == old(out)@ + s@,
{
    let n = s.unicode_len();
    let mut k: usize = 0;
    while k < n
        invariant
            k <= n,
            n == s@.len(),
            out@ == old(out)@ + s@.take(k as int),
        decreases n - k,
    {
        out.push(s.get_char(k));
        assert(out@ =~= old(out)@ + s@.take(k + 1));
        k = k + 1;
    }
    assert(out@ =~= old(out)@ + s@);
}

/// The character of one digit.
fn digit_char_exec(d: usize) -> (r: char)
    requires
        d <= 9,
    ensures
        r == digit_char(d as nat),
{
    let r = match d {
        0 => '0',
        1 => '1',
        2 => '2',
        3 => '3',
        4 => '4',
        5 => '5',
        6 => '6',
        7 => '7',
        8 => '8',
        _ => '9',
    };
    r
}

pub(crate) fn push_decimal(out: &mut Vec<char>, n: usize)
    ensures
        final(out)@ == old(out)@ + dec_digits(n as nat),
    decreases n,
{
    if n < 10 {
        out.push(digit_char_exec(n));
        assert(final(out)@ =~= old(out)@ + dec_digits(n as nat));
    } else {
        push_decimal(out, n / 10);
        out.push(digit_char_exec(n % 10));
        assert(final(out)@ =~= old(out)@ + dec_digits(n as nat));
    }
}

fn push_param(out: &mut Vec<char>, p: &Param)
    ensures
        final(out)@ == old(out)@ + ser_param(p@),
{
    match p {
        Param::StaticStr(c) => {
            out.push('"');
            push_str_chars(out, c.as_str());
            out.push('"');
            assert(final(out)@ =~= old(out)@ + ser_param(p@));
        },
        Param::DynamicStr(n) => {
            out.push('$');
            out.push('{');
            push_str_chars(out, n.as_str());
            out.push('}');
            assert(final(out)@ =~= old(out)@ + ser_param(p@));
        },
    }
}

fn push_cmd(out: &mut Vec<char>, c: &Command)
    ensures
        final(out)@ == old(out)@ + ser_cmd(c@),
{
    match c {
        Command::Selector(p) => push_str_chars(out, "selector"),
        Command::Parent(_) => push_str_chars(out, "parent"),
        Command::Prev(_) => push_str_chars(out, "prev"),
        Command::Nth(_) => push_str_chars(out, "nth"),
        Command::Replace(_, _) => push_str_chars(out, "replace"),
        Command::Uppercase => push_str_chars(out, "uppercase"),
        Command::Lowercase => push_str_chars(out, "lowercase"),
        Command::Insert(_, _) => push_str_chars(out, "insert"),
        Command::Prepend(_) => push_str_chars(out, "prepend"),
        Command::Append(_) => push_str_chars(out, "append"),
        Command::Delete(_) => push_str_chars(out, "delete"),
        Command::RegexMatch(_) => push_str_chars(out, "regex_match"),
        Command::Equals(_) => push_str_chars(out, "equals"),
        Command::Html => push_str_chars(out, "html"),
        Command::Attr(_) => push_str_chars(out, "attr"),
        Command::Val => push_str_chars(out, "val"),
        Command::RegexExtract(_) => push_str_chars(out, "regex_extract"),
        Command::RegexReplace(_, _) => push_str_chars(out, "regex_replace"),
    }
    out.push('(');
    let ghost mid = out@;
    match c {
        Command::Selector(p) => push_param(out, p),
        Command::Parent(n) => push_decimal(out, *n),
        Command::Prev(n) => push_decimal(out, *n),
        Command::Nth(n) => push_decimal(out, *n),
        Command::Replace(a, b) => {
            push_param(out, a);
            out.push(',');
            push_param(out, b);
            assert(out@ =~= mid + ser_args(c@));
        },
        Command::Uppercase => {
            assert(out@ =~= mid + ser_args(c@));
        },
        Command::Lowercase => {
            assert(out@ =~= mid + ser_args(c@));
        },
        Command::Insert(n, p) => {
            push_decimal(out, *n);
            out.push(',');
            push_param(out, p);
            assert(out@ =~= mid + ser_args(c@));
        },
        Command::Prepend(p) => push_param(out, p),
        Command::Append(p) => push_param(out, p),
        Command::Delete(p) => push_param(out, p),
        Command::RegexMatch(p) => push_param(out, p),
        Command::Equals(p) => push_param(out, p),
        Command::Html => {
            assert(out@ =~= mid + ser_args(c@));
        },
        Command::Attr(p) => push_param(out, p),
        Command::Val => {
            assert(out@ =~= mid + ser_args(c@));
        },
        Command::RegexExtract(p) => push_param(out, p),
        Command::RegexReplace(a, b) => {
            push_param(out, a);
            out.push(',');
            push_param(out, b);
            assert(out@ =~= mid + ser_args(c@));
        },
    }
    out.push(')');
    assert(final(out)@ =~= old(out)@ + ser_cmd(c@));
}

/// The canonical text of a command list.
pub fn serialize_cmds(cmds: &Vec<Command>) -> (r: String)
    ensures
        r@ == ser_cmds(cmds.deep_view()),
{
    let ghost dv = cmds.deep_view();
    proof {
        assert(dv.len() == cmds@.len());
    }
    let mut out: Vec<char> = Vec::new();
    let mut i: usize = 0;
    proof {
        assert(dv.skip(0) =~= dv);
        assert(Seq::<char>::empty() + ser_cmds(dv) =~= ser_cmds(dv));
    }
    while i < cmds.len()
        invariant
            i <= cmds@.len(),
            dv == cmds.deep_view(),
            dv.len() == cmds@.len(),
            ser_cmds(dv) == out@ + ser_cmds(dv.skip(i as int)),
            i < cmds@.len() ==> (i > 0 ==> out@.len() > 0 && out@.last() == '.'),
        decreases cmds@.len() - i,
    {
        proof {
            assert(dv.skip(i as int)[0] == dv[i as int]);
            assert(dv[i as int] == cmds@[i as int]@);
        }
        let ghost pre = out@;
        push_cmd(&mut out, &cmds[i]);
        if i + 1 < cmds.len() {
            out.push('.');
            proof {
                assert(dv.skip(i as int).skip(1) =~= dv.skip(i + 1));
                assert(ser_cmds(dv.skip(i as int)) == ser_cmd(dv[i as int]) + seq!['.']
                    + ser_cmds(dv.skip(i + 1)));
                assert(pre + (ser_cmd(dv[i as int]) + seq!['.'] + ser_cmds(dv.skip(i + 1))) =~= out@
                    + ser_cmds(dv.skip(i + 1)));
            }
        } else {
            proof {
                assert(i + 1 == cmds@.len() || cmds@.len() == 0);
                assert(dv.skip(i as int).len() == 1);
                assert(ser_cmds(dv.skip(i as int)) == ser_cmd(dv[i as int]));
                assert(pre + ser_cmd(dv[i as int]) =~= out@ + ser_cmds(dv.skip(i + 1)) + Seq::<
                    char,
                >::empty());
                assert(dv.skip(i + 1) =~= Seq::<CmdView>::empty());
                assert(out@ + ser_cmds(dv.skip(i + 1)) =~= out@);
                assert(ser_cmds(dv) == out@ + ser_cmds(dv.skip(i + 1)));
            }
        }
        i = i + 1;
    }
    proof {
        assert(dv.skip(i as int) =~= Seq::<CmdView>::empty());
        assert(out@ =~= ser_cmds(dv));
    }
    chars_to_string(&out)
}

/// Append the characters of `s` between `a` and `b`.
pub(crate) fn push_str_chars_vec(out: &mut Vec<char>, s: &Vec<char>, a: usize, b: usize)
    requires
        a <= b <= s@.len(),
    ensures
        final(out)@ == old(out)@ + s@.subrange(a as int, b as int),
{
    let mut k = a;
    while k < b
        invariant
            a <= k <= b <= s@.len(),
            out@ == old(out)@ + s@.subrange(a as int, k as int),
        decreases b - k,
    {
        out.push(s[k]);
        assert(out@ =~= old(out)@ + s@.subrange(a as int, k + 1));
        k = k + 1;
    }
}

fn is_ws_exec(c: char) -> (r: bool)
    ensures
        r == is_ws_char(c),
{
    c == ' ' || c == '\t' || c == '\n' || c == '\r'
}

fn is_ident_exec(c: char) -> (r: bool)
    ensures
        r == is_ident_char(c),
{
    ('a' <= c && c <= 'z') || ('A' <= c && c <= 'Z') || ('0' <= c && c <= '9') || c == '_'
}

fn is_digit_exec(c: char) -> (r: bool)
    ensures
        r == is_digit_char(c),
{
    '0' <= c && c <= '9'
}

fn skip_ws(s: &Vec<char>, i: usize) -> (r: usize)
    requires
        i <= s@.len(),
    ensures
        r as int == skip_ws_spec(s@, i as int),
        i <= r <= s@.len(),
{
    let mut k = i;
    while k < s.len() && is_ws_exec(s[k])
        invariant
            i <= k <= s@.len(),
            skip_ws_spec(s@, i as int) == skip_ws_spec(s@, k as int),
        decreases s@.len() - k,
    {
        k = k + 1;
    }
    k
}

pub(crate) fn scan_ident(s: &Vec<char>, i: usize) -> (r: usize)
    requires
        i <= s@.len(),
    ensures
        r as int == scan_ident_spec(s@, i as int),
        i <= r <= s@.len(),
{
    let mut k = i;
    while k < s.len() && is_ident_exec(s[k])
        invariant
            i <= k <= s@.len(),
            scan_ident_spec(s@, i as int) == scan_ident_spec(s@, k as int),
        decreases s@.len() - k,
    {
        k = k + 1;
    }
    k
}

fn scan_digits(s: &Vec<char>, i: usize) -> (r: usize)
    requires
        i <= s@.len(),
    ensures
        r as int == scan_digits_spec(s@, i as int),
        i <= r <= s@.len(),
{
    let mut k = i;
    while k < s.len() && is_digit_exec(s[k])
        invariant
            i <= k <= s@.len(),
            scan_digits_spec(s@, i as int) == scan_digits_spec(s@, k as int),
        decreases s@.len() - k,
    {
        k = k + 1;
    }
    k
}

fn scan_quote(s: &Vec<char>, i: usize) -> (r: usize)
    requires
        i <= s@.len(),
    ensures
        r as int == scan_quote_spec(s@, i as int),
        i <= r <= s@.len(),
{
    let mut k = i;
    while k < s.len() && s[k] != '"'
        invariant
            i <= k <= s@.len(),
            scan_quote_spec(s@, i as int) == scan_quote_spec(s@, k as int),
        decreases s@.len() - k,
    {
        k = k + 1;
    }
    k
}

/// The characters of `s` between `a` and `b`, as an owned string.
pub(crate) fn sub_string(s: &Vec<char>, a: usize, b: usize) -> (r: String)
    requires
        a <= b <= s@.len(),
    ensures
        r@ == s@.subrange(a as int, b as int),
{
    let mut v: Vec<char> = Vec::new();
    let mut k = a;
    while k < b
        invariant
            a <= k <= b <= s@.len(),
            v@ == s@.subrange(a as int, k as int),
        decreases b - k,
    {
        v.push(s[k]);
        assert(v@ =~= s@.subrange(a as int, k + 1));
        k = k + 1;
    }
    chars_to_string(&v)
}

fn parse_usize(s: &Vec<char>, i: usize, default: usize) -> (r: Option<(usize, usize)>)
    requires
        i <= s@.len(),
    ensures
        match r {
            Some((n, j)) => parse_usize_spec(s@, i as int, default as nat) == Some(
                (n as nat, j as int),
            ) && i < j <= s@.len(),
            None => parse_usize_spec(s@, i as int, default as nat) is None,
        },
{
    let e = scan_digits(s, i);
    if e == i {
        return None;
    }
    let mut acc: usize = 0;
    let mut of: bool = false;
    let mut k = i;
    assert(s@.subrange(i as int, i as int) =~= Seq::<char>::empty());
    while k < e
        invariant
            i <= k <= e <= s@.len(),
            e as int == scan_digits_spec(s@, i as int),
            !of ==> acc as nat == digits_fold(s@.subrange(i as int, k as int)) && digits_fold(
                s@.subrange(i as int, k as int),
            ) <= usize::MAX,
            of ==> digits_fold(s@.subrange(i as int, k as int)) > usize::MAX,
        decreases e - k,
    {
        proof {
            lemma_scan_digits_range(s@, i as int, k as int);
        }
        let d: usize = digit_of(s[k]);
        let ghost pre = s@.subrange(i as int, k as int);
        let ghost cur = s@.subrange(i as int, k + 1);
        proof {
            assert(cur.drop_last() =~= pre);
            assert(cur.last() == s@[k as int]);
        }
        if of {
            proof {
                assert(digits_fold(cur) == digits_fold(pre) * 10 + digit_val(s@[k as int]));
                assert(digits_fold(pre) * 10 >= digits_fold(pre)) by (nonlinear_arith)
                    requires digits_fold(pre) >= 0;
                assert(digits_fold(cur) > usize::MAX);
            }
        } else if acc > (usize::MAX - d) / 10 {
            proof {
                assert(acc * 10 + d > usize::MAX) by (nonlinear_arith)
                    requires
                        acc > (usize::MAX - d) / 10,
                        0 <= d <= 9,
                ;
                assert(digits_fold(cur) > usize::MAX);
            }
            of = true;
        } else {
            proof {
                assert(acc * 10 + d <= usize::MAX) by (nonlinear_arith)
                    requires
                        acc <= (usize::MAX - d) / 10,
                        0 <= d <= 9,
                ;
            }
            acc = acc * 10 + d;
        }
        k = k + 1;
    }
    if of {
        Some((default, e))
    } else {
        Some((acc, e))
    }
}

/// Every character a digit scan passed over is a digit.
proof fn lemma_scan_digits_range(s: Seq<char>, i: int, k: int)
    requires
        0 <= i <= k,
        k < scan_digits_spec(s, i),
    ensures
        k < s.len() && is_digit_char(s[k]),
    decreases k - i,
{
    if i < k {
        if 0 <= i < s.len() && is_digit_char(s[i]) {
            lemma_scan_digits_range(s, i + 1, k);
        }
    }
}

/// The numeric value of one digit character.
fn digit_of(c: char) -> (r: usize)
    requires
        is_digit_char(c),
    ensures
        r as nat == digit_val(c),
        r <= 9,
{
    (c as u32 - 48) as usize
}

fn parse_param(s: &Vec<char>, i: usize) -> (r: Option<(Param, usize)>)
    requires
        i <= s@.len(),
    ensures
        match r {
            Some((p, j)) => parse_param_spec(s@, i as int) == Some((p@, j as int)) && i < j
                <= s@.len(),
            None => parse_param_spec(s@, i as int) is None,
        },
{
    if i < s.len() && s[i] == '"' {
        let e = scan_quote(s, i + 1);
        if e < s.len() {
            let content = sub_string(s, i + 1, e);
            Some((Param::StaticStr(content), e + 1))
        } else {
            None
        }
    } else if i < s.len() && s[i] == '$' && i + 1 < s.len() && s[i + 1] == '{' {
        let e = scan_ident(s, i + 2);
        if e > i + 2 && e < s.len() && s[e] == '}' {
            let name = sub_string(s, i + 2, e);
            Some((Param::DynamicStr(name), e + 1))
        } else {
            None
        }
    } else {
        None
    }
}

fn close_paren(s: &Vec<char>, j: usize) -> (r: Option<usize>)
    requires
        j <= s@.len(),
    ensures
        match r {
            Some(k) => close_spec(s@, j as int) == Some(k as int) && j < k <= s@.len(),
            None => close_spec(s@, j as int) is None,
        },
{
    let k = skip_ws(s, j);
    if k < s.len() && s[k] == ')' {
        Some(k + 1)
    } else {
        None
    }
}

fn comma(s: &Vec<char>, j: usize) -> (r: Option<usize>)
    requires
        j <= s@.len(),
    ensures
        match r {
            Some(b) => comma_spec(s@, j as int) == Some(b as int) && j < b <= s@.len(),
            None => comma_spec(s@, j as int) is None,
        },
{
    let k = skip_ws(s, j);
    if k < s.len() && s[k] == ',' {
        Some(skip_ws(s, k + 1))
    } else {
        None
    }
}

fn one_param(s: &Vec<char>, a: usize) -> (r: Option<(Param, usize)>)
    requires
        a <= s@.len(),
    ensures
        match r {
            Some((p, k)) => one_param_spec(s@, a as int) == Some((p@, k as int)) && a < k
                <= s@.len(),
            None => one_param_spec(s@, a as int) is None,
        },
{
    match parse_param(s, a) {
        Some((p, j)) => match close_paren(s, j) {
            Some(k) => Some((p, k)),
            None => None,
        },
        None => None,
    }
}

fn two_params(s: &Vec<char>, a: usize) -> (r: Option<(Param, Param, usize)>)
    requires
        a <= s@.len(),
    ensures
        match r {
            Some((p, q, k)) => two_params_spec(s@, a as int) == Some((p@, q@, k as int)) && a < k
                <= s@.len(),
            None => two_params_spec(s@, a as int) is None,
        },
{
    match parse_param(s, a) {
        Some((p, j)) => match comma(s, j) {
            Some(b) => match parse_param(s, b) {
                Some((q, j2)) => match close_paren(s, j2) {
                    Some(k) => Some((p, q, k)),
                    None => None,
                },
                None => None,
            },
            None => None,
        },
        None => None,
    }
}

fn int_arg(s: &Vec<char>, a: usize, default: usize) -> (r: Option<(usize, usize)>)
    requires
        a <= s@.len(),
    ensures
        match r {
            Some((n, k)) => int_arg_spec(s@, a as int, default as nat) == Some(
                (n as nat, k as int),
            ) && a < k <= s@.len(),
            None => int_arg_spec(s@, a as int, default as nat) is None,
        },
{
    match parse_usize(s, a, default) {
        Some((n, j)) => match close_paren(s, j) {
            Some(k) => Some((n, k)),
            None => None,
        },
        None => None,
    }
}

fn int_param(s: &Vec<char>, a: usize, default: usize) -> (r: Option<(usize, Param, usize)>)
    requires
        a <= s@.len(),
    ensures
        match r {
            Some((n, p, k)) => int_param_spec(s@, a as int, default as nat) == Some(
                (n as nat, p@, k as int),
            ) && a < k <= s@.len(),
            None => int_param_spec(s@, a as int, default as nat) is None,
        },
{
    match parse_usize(s, a, default) {
        Some((n, j)) => match comma(s, j) {
            Some(b) => match parse_param(s, b) {
                Some((p, j2)) => match close_paren(s, j2) {
                    Some(k) => Some((n, p, k)),
                    None => None,
                },
                None => None,
            },
            None => None,
        },
        None => None,
    }
}

/// Whether `s[i..e]` spells out `name`.
fn ident_is(s: &Vec<char>, i: usize, e: usize, name: &str) -> (r: bool)
    requires
        i <= e <= s@.len(),
    ensures
        r == (s@.subrange(i as int, e as int) == name@),
{
    let n = name.unicode_len();
    if e - i != n {
        proof {
            assert(s@.subrange(i as int, e as int).len() != name@.len());
        }
        return false;
    }
    let mut k: usize = 0;
    while k < n
        invariant
            k <= n,
            i <= e <= s@.len(),
            e - i == n,
            n == name@.len(),
            forall|m: int| 0 <= m < k ==> s@[i + m] == name@[m],
        decreases n - k,
    {
        if s[i + k] != name.get_char(k) {
            proof {
                assert(s@.subrange(i as int, e as int)[k as int] != name@[k as int]);
            }
            return false;
        }
        k = k + 1;
    }
    proof {
        assert(s@.subrange(i as int, e as int) =~= name@);
    }
    true
}

/// One command at position `i`, and the position after it.
fn parse_command(s: &Vec<char>, i: usize) -> (r: Option<(Command, usize)>)
    requires
        i <= s@.len(),
    ensures
        match r {
            Some((c, j)) => parse_command_spec(s@, i as int) == Some((c@, j as int)) && i < j
                <= s@.len(),
            None => parse_command_spec(s@, i as int) is None,
        },
{
    let e = scan_ident(s, i);
    if e == i || !(e < s.len() && s[e] == '(') {
        return None;
    }
    let a = skip_ws(s, e + 1);
    if ident_is(s, i, e, "selector") {
        match one_param(s, a) {
            Some((p, k)) => Some((Command::Selector(p), k)),
            None => None,
        }
    } else if ident_is(s, i, e, "parent") {
        match int_arg(s, a, 1) {
            Some((n, k)) => Some((Command::Parent(n), k)),
            None => None,
        }
    } else if ident_is(s, i, e, "prev") {
        match int_arg(s, a, 1) {
            Some((n, k)) => Some((Command::Prev(n), k)),
            None => None,
        }
    } else if ident_is(s, i, e, "nth") {
        match int_arg(s, a, 1) {
            Some((n, k)) => Some((Command::Nth(n), k)),
            None => None,
        }
    } else if ident_is(s, i, e, "replace") {
        match two_params(s, a) {
            Some((p, q, k)) => Some((Command::Replace(p, q), k)),
            None => None,
        }
    } else if ident_is(s, i, e, "uppercase") {
        match close_paren(s, a) {
            Some(k) => Some((Command::Uppercase, k)),
            None => None,
        }
    } else if ident_is(s, i, e, "lowercase") {
        match close_paren(s, a) {
            Some(k) => Some((Command::Lowercase, k)),
            None => None,
        }
    } else if ident_is(s, i, e, "insert") {
        match int_param(s, a, 0) {
            Some((n, p, k)) => Some((Command::Insert(n, p), k)),
            None => None,
        }
    } else if ident_is(s, i, e, "prepend") {
        match one_param(s, a) {
            Some((p, k)) => Some((Command::Prepend(p), k)),
            None => None,
        }
    } else if ident_is(s, i, e, "append") {
        match one_param(s, a) {
            Some((p, k)) => Some((Command::Append(p), k)),
            None => None,
        }
    } else if ident_is(s, i, e, "delete") {
        match one_param(s, a) {
            Some((p, k)) => Some((Command::Delete(p), k)),
            None => None,
        }
    } else if ident_is(s, i, e, "regex_match") {
        match one_param(s, a) {
            Some((p, k)) => Some((Command::RegexMatch(p), k)),
            None => None,
        }
    } else if ident_is(s, i, e, "equals") {
        match one_param(s, a) {
            Some((p, k)) => Some((Command::Equals(p), k)),
            None => None,
        }
    } else if ident_is(s, i, e, "html") {
        match close_paren(s, a) {
            Some(k) => Some((Command::Html, k)),
            None => None,
        }
    } else if ident_is(s, i, e, "attr") {
        match one_param(s, a) {
            Some((p, k)) => Some((Command::Attr(p), k)),
            None => None,
        }
    } else if ident_is(s, i, e, "val") {
        match close_paren(s, a) {
            Some(k) => Some((Command::Val, k)),
            None => None,
        }
    } else if ident_is(s, i, e, "regex_extract") {
        match one_param(s, a) {
            Some((p, k)) => Some((Command::RegexExtract(p), k)),
            None => None,
        }
    } else if ident_is(s, i, e, "regex_replace") {
        match two_params(s, a) {
            Some((p, q, k)) => Some((Command::RegexReplace(p, q), k)),
            None => None,
        }
    } else {
        None
    }
}

/// The whole script: commands joined by `.`, running to the end of the
/// text.
pub fn parse_chars(s: &Vec<char>) -> (r: Option<Vec<Command>>)
    ensures
        match r {
            Some(cmds) => parse_script_spec(s@) == Some(cmds.deep_view()),
            None => parse_script_spec(s@) is None,
        },
{
    let mut out: Vec<Command> = Vec::new();
    let mut i: usize = 0;
    loop
        invariant
            i <= s@.len(),
            forall|rest: Seq<CmdView>|
                parse_cmds_spec(s@, i as int) == Some::<Seq<CmdView>>(rest)
                    ==> parse_cmds_spec(s@, 0) == Some(out.deep_view() + rest),
            parse_cmds_spec(s@, i as int) is None ==> parse_cmds_spec(s@, 0) is None,
        decreases s@.len() - i,
    {
        match parse_command(s, i) {
            None => {
                return None;
            },
            Some((c, j)) => {
                let ghost pre = out.deep_view();
                out.push(c);
                proof {
                    assert(out.deep_view() =~= pre.push(c@));
                }
                if j == s.len() {
                    proof {
                        assert(parse_cmds_spec(s@, i as int) == Some(seq![c@]));
                        assert(pre + seq![c@] =~= out.deep_view());
                    }
                    return Some(out);
                }
                if s[j] == '.' {
                    proof {
                        if parse_cmds_spec(s@, j + 1) is Some {
                            let rest = parse_cmds_spec(s@, j + 1)->Some_0;
                            assert(parse_cmds_spec(s@, i as int) == Some(seq![c@] + rest));
                            assert(pre + (seq![c@] + rest) =~= out.deep_view() + rest);
                        }
                    }
                    i = j + 1;
                } else {
                    return None;
                }
            },
        }
    }
}

/// Structural equality of two arguments.
pub fn param_eq(a: &Param, b: &Param) -> (r: bool)
    ensures
        r == (a@ == b@),
{
    match (a, b) {
        (Param::StaticStr(x), Param::StaticStr(y)) => crate::text::str_eq(x.as_str(), y.as_str()),
        (Param::DynamicStr(x), Param::DynamicStr(y)) => crate::text::str_eq(x.as_str(), y.as_str()),
        _ => false,
    }
}

/// Structural equality of two commands.
pub fn cmd_eq(a: &Command, b: &Command) -> (r: bool)
    ensures
        r == (a@ == b@),
{
    match (a, b) {
        (Command::Selector(p), Command::Selector(q)) => param_eq(p, q),
        (Command::Parent(n), Command::Parent(m)) => n == m,
        (Command::Prev(n), Command::Prev(m)) => n == m,
        (Command::Nth(n), Command::Nth(m)) => n == m,
        (Command::Replace(p, p2), Command::Replace(q, q2)) => param_eq(p, q) && param_eq(p2, q2),
        (Command::Uppercase, Command::Uppercase) => true,
        (Command::Lowercase, Command::Lowercase) => true,
        (Command::Insert(n, p), Command::Insert(m, q)) => n == m && param_eq(p, q),
        (Command::Prepend(p), Command::Prepend(q)) => param_eq(p, q),
        (Command::Append(p), Command::Append(q)) => param_eq(p, q),
        (Command::Delete(p), Command::Delete(q)) => param_eq(p, q),
        (Command::RegexMatch(p), Command::RegexMatch(q)) => param_eq(p, q),
        (Command::Equals(p), Command::Equals(q)) => param_eq(p, q),
        (Command::Html, Command::Html) => true,
        (Command::Attr(p), Command::Attr(q)) => param_eq(p, q),
        (Command::Val, Command::Val) => true,
        (Command::RegexExtract(p), Command::RegexExtract(q)) => param_eq(p, q),
        (Command::RegexReplace(p, p2), Command::RegexReplace(q, q2)) => param_eq(p, q) && param_eq(
            p2,
            q2,
        ),
        _ => false,
    }
}

/// Structural equality of two command lists.
pub fn cmds_eq(a: &Vec<Command>, b: &Vec<Command>) -> (r: bool)
    ensures
        r == (a.deep_view() == b.deep_view()),
{
    proof {
        assert(a.deep_view().len() == a@.len());
        assert(b.deep_view().len() == b@.len());
    }
    if a.len() != b.len() {
        return false;
    }
    let mut i: usize = 0;
    while i < a.len()
        invariant
            i <= a@.len(),
            a@.len() == b@.len(),
            a.deep_view().len() == a@.len(),
            b.deep_view().len() == b@.len(),
            forall|k: int| 0 <= k < i ==> a.deep_view()[k] == b.deep_view()[k],
        decreases a@.len() - i,
    {
        let same = cmd_eq(&a[i], &b[i]);
        proof {
            assert(a.deep_view()[i as int] == a@[i as int]@);
            assert(b.deep_view()[i as int] == b@[i as int]@);
        }
        if !same {
            return false;
        }
        i = i + 1;
    }
    proof {
        assert(a.deep_view() =~= b.deep_view());
    }
    true
}

/// Every character is an identifier character; stated recursively so that
/// it evaluates on concrete names.
pub open spec fn all_ident(s: Seq<char>) -> bool
    decreases s.len(),
{
    if s.len() == 0 {
        true
    } else {
        is_ident_char(s[0]) && all_ident(s.skip(1))
    }
}

/// A literal argument may hold anything but a double quote.
pub open spec fn no_quote(s: Seq<char>) -> bool {
    forall|k: int| 0 <= k < s.len() ==> s[k] != '"'
}

/// An argument that the canonical text writes back exactly: literals hold
/// no quote; dynamic names are non-empty identifiers.
pub open spec fn param_wf(p: ParamView) -> bool {
    match p {
        ParamView::Static(c) => no_quote(c),
        ParamView::Dynamic(n) => n.len() > 0 && all_ident(n),
    }
}

/// A command that the canonical text writes back exactly.
pub open spec fn cmd_wf(c: CmdView) -> bool {
    match c {
        CmdView::Selector(p) => param_wf(p),
        CmdView::Parent(n) => n <= usize::MAX,
        CmdView::Prev(n) => n <= usize::MAX,
        CmdView::Nth(n) => n <= usize::MAX,
        CmdView::Replace(a, b) => param_wf(a) && param_wf(b),
        CmdView::Uppercase => true,
        CmdView::Lowercase => true,
        CmdView::Insert(n, p) => n <= usize::MAX && param_wf(p),
        CmdView::Prepend(p) => param_wf(p),
        CmdView::Append(p) => param_wf(p),
        CmdView::Delete(p) => param_wf(p),
        CmdView::RegexMatch(p) => param_wf(p),
        CmdView::Equals(p) => param_wf(p),
        CmdView::Html => true,
        CmdView::Attr(p) => param_wf(p),
        CmdView::Val => true,
        CmdView::RegexExtract(p) => param_wf(p),
        CmdView::RegexReplace(a, b) => param_wf(a) && param_wf(b),
    }
}

/// A command list the canonical text writes back exactly.
pub open spec fn cmds_wf(cs: Seq<CmdView>) -> bool {
    forall|k: int| 0 <= k < cs.len() ==> cmd_wf(#[trigger] cs[k])
}

/// The recursive and pointwise forms of `all_ident` agree.
proof fn lemma_all_ident_iff(s: Seq<char>)
    ensures
        all_ident(s) <==> (forall|k: int| 0 <= k < s.len() ==> is_ident_char(s[k])),
    decreases s.len(),
{
    if s.len() > 0 {
        lemma_all_ident_iff(s.skip(1));
        if is_ident_char(s[0]) && (forall|k: int|
            0 <= k < s.skip(1).len() ==> is_ident_char(s.skip(1)[k])) {
            assert forall|k: int| 0 <= k < s.len() implies is_ident_char(s[k]) by {
                if k > 0 {
                    assert(s.skip(1)[k - 1] == s[k]);
                }
            }
        }
        if forall|k: int| 0 <= k < s.len() ==> is_ident_char(s[k]) {
            assert forall|k: int| 0 <= k < s.skip(1).len() implies is_ident_char(
                s.skip(1)[k],
            ) by {
                assert(s.skip(1)[k] == s[k + 1]);
            }
        }
    }
}

/// A whitespace skip stops where it stands on a non-whitespace character.
proof fn lemma_skip_ws_here(s: Seq<char>, i: int)
    requires
        i >= s.len() || !is_ws_char(s[i]),
    ensures
        skip_ws_spec(s, i) == i,
{
}

/// An identifier scan stops exactly at `e` when everything before is an
/// identifier character and `e` is not.
proof fn lemma_scan_ident_exact(s: Seq<char>, i: int, e: int)
    requires
        0 <= i <= e <= s.len(),
        forall|k: int| i <= k < e ==> is_ident_char(s[k]),
        e == s.len() || !is_ident_char(s[e]),
    ensures
        scan_ident_spec(s, i) == e,
    decreases e - i,
{
    if i < e {
        lemma_scan_ident_exact(s, i + 1, e);
    }
}

/// A quote scan stops exactly at `e` when everything before is not a quote
/// and `e` is one.
proof fn lemma_scan_quote_exact(s: Seq<char>, i: int, e: int)
    requires
        0 <= i <= e < s.len(),
        forall|k: int| i <= k < e ==> s[k] != '"',
        s[e] == '"',
    ensures
        scan_quote_spec(s, i) == e,
    decreases e - i,
{
    if i < e {
        lemma_scan_quote_exact(s, i + 1, e);
    }
}

/// A digit scan stops exactly at `e`.
proof fn lemma_scan_digits_exact(s: Seq<char>, i: int, e: int)
    requires
        0 <= i <= e <= s.len(),
        forall|k: int| i <= k < e ==> is_digit_char(s[k]),
        e == s.len() || !is_digit_char(s[e]),
    ensures
        scan_digits_spec(s, i) == e,
    decreases e - i,
{
    if i < e {
        lemma_scan_digits_exact(s, i + 1, e);
    }
}

/// A decimal spelling is one or more digit characters, and folding it back
/// recovers the number.
proof fn lemma_dec_digits(n: nat)
    ensures
        dec_digits(n).len() >= 1,
        forall|k: int| 0 <= k < dec_digits(n).len() ==> is_digit_char(#[trigger] dec_digits(n)[k]),
        digits_fold(dec_digits(n)) == n,
    decreases n,
{
    if n < 10 {
        assert(digit_char(n) == ((n + 48) as char));
        assert(is_digit_char(digit_char(n)));
        assert(dec_digits(n) == seq![digit_char(n)]);
        assert(dec_digits(n).drop_last() =~= Seq::<char>::empty());
        assert(digits_fold(Seq::<char>::empty()) == 0);
        assert(dec_digits(n).last() == digit_char(n));
        assert(digits_fold(dec_digits(n)) == digits_fold(dec_digits(n).drop_last()) * 10
            + digit_val(dec_digits(n).last()));
        assert(digits_fold(dec_digits(n)) == digit_val(digit_char(n)));
        assert(digit_val(digit_char(n)) == n);
    } else {
        lemma_dec_digits(n / 10);
        let d = (n % 10) as nat;
        assert(is_digit_char(digit_char(d)));
        assert(dec_digits(n) == dec_digits(n / 10).push(digit_char(d)));
        assert forall|k: int| 0 <= k < dec_digits(n).len() implies is_digit_char(
            #[trigger] dec_digits(n)[k],
        ) by {
            if k < dec_digits(n / 10).len() {
                assert(dec_digits(n)[k] == dec_digits(n / 10)[k]);
            } else {
                assert(dec_digits(n)[k] == digit_char(d));
            }
        }
        assert(dec_digits(n).drop_last() =~= dec_digits(n / 10));
        assert(dec_digits(n).last() == digit_char(d));
        assert(digits_fold(dec_digits(n)) == digits_fold(dec_digits(n / 10)) * 10 + digit_val(
            digit_char(d),
        ));
        assert(digit_val(digit_char(d)) == d);
        assert((n / 10) * 10 + (n % 10) == n) by (nonlinear_arith);
    }
}

} // verus!

verus! {

/// Pointwise transfer out of a subrange equation.
proof fn lemma_sub_transfer(s: Seq<char>, i: int, t: Seq<char>)
    requires
        0 <= i,
        i + t.len() <= s.len(),
        s.subrange(i, i + t.len()) == t,
    ensures
        forall|m: int| 0 <= m < t.len() ==> s[i + m] == t[m],
{
    assert forall|m: int| 0 <= m < t.len() implies s[i + m] == t[m] by {
        assert(s.subrange(i, i + t.len())[m] == s[i + m]);
    }
}

/// A serialised argument parses back to itself.
proof fn lemma_param_of(s: Seq<char>, i: int, p: ParamView)
    requires
        param_wf(p),
        0 <= i,
        i + ser_param(p).len() <= s.len(),
        s.subrange(i, i + ser_param(p).len()) == ser_param(p),
    ensures
        parse_param_spec(s, i) == Some((p, i + ser_param(p).len())),
{
    let t = ser_param(p);
    let l = t.len() as int;
    lemma_sub_transfer(s, i, t);
    match p {
        ParamView::Static(c) => {
            assert(t =~= seq!['"'] + c + seq!['"']);
            assert(t[0] == '"');
            assert(s[i] == '"');
            assert(t[l - 1] == '"');
            assert(s[i + l - 1] == '"');
            assert forall|k: int| i + 1 <= k < i + 1 + c.len() implies s[k] != '"' by {
                assert(t[k - i] == c[k - i - 1]);
                assert(s[k] == t[k - i]);
            }
            lemma_scan_quote_exact(s, i + 1, i + l - 1);
            assert forall|m: int| 0 <= m < c.len() implies s.subrange(i + 1, i + l - 1)[m]
                == c[m] by {
                assert(s.subrange(i + 1, i + l - 1)[m] == s[i + 1 + m]);
                assert(s[i + (m + 1)] == t[m + 1]);
                assert(t[m + 1] == c[m]);
            }
            assert(s.subrange(i + 1, i + l - 1) =~= c);
        },
        ParamView::Dynamic(n) => {
            assert(t =~= seq!['$', '{'] + n + seq!['}']);
            assert(t[0] == '$');
            assert(t[1] == '{');
            assert(s[i] == '$');
            assert(s[i + 1] == '{');
            assert(t[l - 1] == '}');
            assert(s[i + l - 1] == '}');
            lemma_all_ident_iff(n);
            assert forall|k: int| i + 2 <= k < i + 2 + n.len() implies is_ident_char(s[k]) by {
                assert(t[k - i] == n[k - i - 2]);
                assert(s[k] == t[k - i]);
            }
            assert(!is_ident_char('}'));
            lemma_scan_ident_exact(s, i + 2, i + 2 + n.len());
            assert forall|m: int| 0 <= m < n.len() implies s.subrange(i + 2, i + 2 + n.len())[m]
                == n[m] by {
                assert(s.subrange(i + 2, i + 2 + n.len())[m] == s[i + 2 + m]);
                assert(s[i + (m + 2)] == t[m + 2]);
                assert(t[m + 2] == n[m]);
            }
            assert(s.subrange(i + 2, i + 2 + n.len()) =~= n);
        },
    }
}

/// One serialised argument before its closing parenthesis parses back.
proof fn lemma_one_param_of(s: Seq<char>, a: int, p: ParamView)
    requires
        param_wf(p),
        0 <= a,
        a + ser_param(p).len() < s.len(),
        s.subrange(a, a + ser_param(p).len()) == ser_param(p),
        s[a + ser_param(p).len()] == ')',
    ensures
        one_param_spec(s, a) == Some((p, a + ser_param(p).len() + 1)),
{
    let j = a + ser_param(p).len() as int;
    lemma_param_of(s, a, p);
    lemma_skip_ws_here(s, j);
}

/// Two serialised arguments around a comma parse back.
proof fn lemma_two_params_of(s: Seq<char>, a: int, p: ParamView, q: ParamView)
    requires
        param_wf(p),
        param_wf(q),
        0 <= a,
        a + ser_param(p).len() + 1 + ser_param(q).len() < s.len(),
        s.subrange(a, a + ser_param(p).len()) == ser_param(p),
        s[a + ser_param(p).len()] == ',',
        s.subrange(
            a + ser_param(p).len() + 1,
            a + ser_param(p).len() + 1 + ser_param(q).len(),
        ) == ser_param(q),
        s[a + ser_param(p).len() + 1 + ser_param(q).len()] == ')',
    ensures
        two_params_spec(s, a) == Some(
            (p, q, a + ser_param(p).len() + 1 + ser_param(q).len() + 1),
        ),
{
    let j = a + ser_param(p).len() as int;
    let b = j + 1;
    let j2 = b + ser_param(q).len() as int;
    lemma_param_of(s, a, p);
    lemma_skip_ws_here(s, j);
    lemma_sub_transfer(s, b, ser_param(q));
    match q {
        ParamView::Static(c) => {
            assert(ser_param(q)[0] == '"');
            assert(s[b] == '"');
        },
        ParamView::Dynamic(n) => {
            assert(ser_param(q)[0] == '$');
            assert(s[b] == '$');
        },
    }
    lemma_skip_ws_here(s, b);
    assert(comma_spec(s, j) == Some(b));
    lemma_param_of(s, b, q);
    lemma_skip_ws_here(s, j2);
}

/// A serialised decimal before its closing parenthesis parses back, for
/// any saturation default.
proof fn lemma_int_arg_of(s: Seq<char>, a: int, n: nat, default: nat)
    requires
        n <= usize::MAX,
        0 <= a,
        a + dec_digits(n).len() < s.len(),
        s.subrange(a, a + dec_digits(n).len()) == dec_digits(n),
        s[a + dec_digits(n).len()] == ')',
    ensures
        int_arg_spec(s, a, default) == Some((n, a + dec_digits(n).len() + 1)),
{
    let t = dec_digits(n);
    let e = a + t.len() as int;
    lemma_dec_digits(n);
    lemma_sub_transfer(s, a, t);
    assert forall|k: int| a <= k < e implies is_digit_char(s[k]) by {
        assert(s[k] == t[k - a]);
    }
    assert(!is_digit_char(')'));
    lemma_scan_digits_exact(s, a, e);
    assert(s.subrange(a, e) == t);
    assert(digits_fold(s.subrange(a, e)) == n);
    lemma_skip_ws_here(s, e);
}

/// A serialised decimal, a comma and an argument parse back.
proof fn lemma_int_param_of(s: Seq<char>, a: int, n: nat, p: ParamView, default: nat)
    requires
        n <= usize::MAX,
        param_wf(p),
        0 <= a,
        a + dec_digits(n).len() + 1 + ser_param(p).len() < s.len(),
        s.subrange(a, a + dec_digits(n).len()) == dec_digits(n),
        s[a + dec_digits(n).len()] == ',',
        s.subrange(
            a + dec_digits(n).len() + 1,
            a + dec_digits(n).len() + 1 + ser_param(p).len(),
        ) == ser_param(p),
        s[a + dec_digits(n).len() + 1 + ser_param(p).len()] == ')',
    ensures
        int_param_spec(s, a, default) == Some(
            (n, p, a + dec_digits(n).len() + 1 + ser_param(p).len() + 1),
        ),
{
    let t = dec_digits(n);
    let e = a + t.len() as int;
    let b = e + 1;
    let j2 = b + ser_param(p).len() as int;
    lemma_dec_digits(n);
    lemma_sub_transfer(s, a, t);
    assert forall|k: int| a <= k < e implies is_digit_char(s[k]) by {
        assert(s[k] == t[k - a]);
    }
    assert(!is_digit_char(','));
    lemma_scan_digits_exact(s, a, e);
    assert(s.subrange(a, e) == t);
    assert(digits_fold(s.subrange(a, e)) == n);
    lemma_skip_ws_here(s, e);
    lemma_sub_transfer(s, b, ser_param(p));
    match p {
        ParamView::Static(c) => {
            assert(ser_param(p)[0] == '"');
            assert(s[b] == '"');
        },
        ParamView::Dynamic(nm) => {
            assert(ser_param(p)[0] == '$');
            assert(s[b] == '$');
        },
    }
    lemma_skip_ws_here(s, b);
    assert(comma_spec(s, e) == Some(b));
    lemma_param_of(s, b, p);
    lemma_skip_ws_here(s, j2);
}

} // verus!

verus! {

/// The command identifiers: their lengths, their characters being
/// identifier characters, and the distinctions the parser's dispatch
/// relies on.
proof fn lemma_names()
    ensures
        "selector"@.len() == 8,
        "parent"@.len() == 6,
        "prev"@.len() == 4,
        "nth"@.len() == 3,
        "replace"@.len() == 7,
        "uppercase"@.len() == 9,
        "lowercase"@.len() == 9,
        "insert"@.len() == 6,
        "prepend"@.len() == 7,
        "append"@.len() == 6,
        "delete"@.len() == 6,
        "regex_match"@.len() == 11,
        "equals"@.len() == 6,
        "html"@.len() == 4,
        "attr"@.len() == 4,
        "val"@.len() == 3,
        "regex_extract"@.len() == 13,
        "regex_replace"@.len() == 13,
        all_ident("selector"@),
        all_ident("parent"@),
        all_ident("prev"@),
        all_ident("nth"@),
        all_ident("replace"@),
        all_ident("uppercase"@),
        all_ident("lowercase"@),
        all_ident("insert"@),
        all_ident("prepend"@),
        all_ident("append"@),
        all_ident("delete"@),
        all_ident("regex_match"@),
        all_ident("equals"@),
        all_ident("html"@),
        all_ident("attr"@),
        all_ident("val"@),
        all_ident("regex_extract"@),
        all_ident("regex_replace"@),
        "nth"@ != "val"@,
        "prev"@ != "html"@,
        "prev"@ != "attr"@,
        "html"@ != "attr"@,
        "parent"@ != "insert"@,
        "parent"@ != "append"@,
        "parent"@ != "delete"@,
        "parent"@ != "equals"@,
        "insert"@ != "append"@,
        "insert"@ != "delete"@,
        "insert"@ != "equals"@,
        "append"@ != "delete"@,
        "append"@ != "equals"@,
        "delete"@ != "equals"@,
        "replace"@ != "prepend"@,
        "uppercase"@ != "lowercase"@,
        "regex_extract"@ != "regex_replace"@,
{
    reveal_strlit("selector");
    reveal_strlit("parent");
    reveal_strlit("prev");
    reveal_strlit("nth");
    reveal_strlit("replace");
    reveal_strlit("uppercase");
    reveal_strlit("lowercase");
    reveal_strlit("insert");
    reveal_strlit("prepend");
    reveal_strlit("append");
    reveal_strlit("delete");
    reveal_strlit("regex_match");
    reveal_strlit("equals");
    reveal_strlit("html");
    reveal_strlit("attr");
    reveal_strlit("val");
    reveal_strlit("regex_extract");
    reveal_strlit("regex_replace");
    reveal_with_fuel(all_ident, 15);
    assert(all_ident("selector"@));
    assert(all_ident("parent"@));
    assert(all_ident("prev"@));
    assert(all_ident("nth"@));
    assert(all_ident("replace"@));
    assert(all_ident("uppercase"@));
    assert(all_ident("lowercase"@));
    assert(all_ident("insert"@));
    assert(all_ident("prepend"@));
    assert(all_ident("append"@));
    assert(all_ident("delete"@));
    assert(all_ident("regex_match"@));
    assert(all_ident("equals"@));
    assert(all_ident("html"@));
    assert(all_ident("attr"@));
    assert(all_ident("val"@));
    assert(all_ident("regex_extract"@));
    assert(all_ident("regex_replace"@));
    assert("nth"@[0] != "val"@[0]);
    assert("prev"@[0] != "html"@[0]);
    assert("prev"@[0] != "attr"@[0]);
    assert("html"@[0] != "attr"@[0]);
    assert("parent"@[0] != "insert"@[0]);
    assert("parent"@[0] != "append"@[0]);
    assert("parent"@[0] != "delete"@[0]);
    assert("parent"@[0] != "equals"@[0]);
    assert("insert"@[0] != "append"@[0]);
    assert("insert"@[0] != "delete"@[0]);
    assert("insert"@[0] != "equals"@[0]);
    assert("append"@[0] != "delete"@[0]);
    assert("append"@[0] != "equals"@[0]);
    assert("delete"@[0] != "equals"@[0]);
    assert("replace"@[0] != "prepend"@[0]);
    assert("uppercase"@[0] != "lowercase"@[0]);
    assert("regex_extract"@[6] != "regex_replace"@[6]);
}

} // verus!

verus! {

/// A serialised command, standing in a larger text with either the end of
/// the text or a dot after it, parses back to itself.
proof fn lemma_command_of(s: Seq<char>, i: int, c: CmdView)
    requires
        cmd_wf(c),
        0 <= i,
        i + ser_cmd(c).len() <= s.len(),
        s.subrange(i, i + ser_cmd(c).len()) == ser_cmd(c),
    ensures
        parse_command_spec(s, i) == Some((c, i + ser_cmd(c).len())),
{
    lemma_names();
    let t = ser_cmd(c);
    let L = t.len() as int;
    let nm = cmd_name(c);
    let nl = nm.len() as int;
    let ar = ser_args(c);
    let al = ar.len() as int;
    let a = i + nl + 1;
    lemma_sub_transfer(s, i, t);
    assert(t =~= nm + seq!['('] + ar + seq![')']);
    assert(L == nl + 1 + al + 1);
    assert forall|k: int| i <= k < i + nl implies is_ident_char(s[k]) by {
        assert(s[i + (k - i)] == t[k - i]);
        assert(t[k - i] == nm[k - i]);
        lemma_all_ident_iff(nm);
    }
    assert(t[nl] == '(');
    assert(s[i + nl] == '(');
    assert(!is_ident_char('('));
    lemma_scan_ident_exact(s, i, i + nl);
    assert forall|m: int| 0 <= m < nl implies s.subrange(i, i + nl)[m] == nm[m] by {
        assert(s.subrange(i, i + nl)[m] == s[i + m]);
        assert(s[i + m] == t[m]);
    }
    assert(s.subrange(i, i + nl) =~= nm);
    assert(t[L - 1] == ')');
    assert(s[i + (L - 1)] == ')');
    assert forall|m: int| 0 <= m < al implies s[i + nl + 1 + m] == ar[m] by {
        assert(s[i + (nl + 1 + m)] == t[nl + 1 + m]);
        assert(t[nl + 1 + m] == ar[m]);
    }
    match c {
        CmdView::Selector(p) => {
            assert(nm == "selector"@);
            let pl = ser_param(p).len() as int;
            assert(ar =~= ser_param(p));
            assert(al == pl);
            assert forall|m: int| 0 <= m < pl implies s.subrange(a, a + pl)[m] == ser_param(
                p,
            )[m] by {
                assert(s.subrange(a, a + pl)[m] == s[a + m]);
                assert(s[i + nl + 1 + m] == ar[m]);
            }
            assert(s.subrange(a, a + pl) =~= ser_param(p));
            match p {
                ParamView::Static(cc) => {
                    assert(ser_param(p)[0] == '"');
                },
                ParamView::Dynamic(nn) => {
                    assert(ser_param(p)[0] == '$');
                },
            }
            assert(s[i + nl + 1 + 0] == ar[0]);
            assert(!is_ws_char(s[a]));
            lemma_skip_ws_here(s, a);
            assert(s[i + L - 1] == ')');
            assert(a + pl == i + L - 1);
            lemma_one_param_of(s, a, p);
            assert(parse_command_spec(s, i) == Some((c, i + L)));
        },
        CmdView::Parent(n) => {
            assert(nm == "parent"@);
            let dl = dec_digits(n).len() as int;
            assert(ar =~= dec_digits(n));
            assert(al == dl);
            lemma_dec_digits(n);
            assert forall|m: int| 0 <= m < dl implies s.subrange(a, a + dl)[m] == dec_digits(
                n,
            )[m] by {
                assert(s.subrange(a, a + dl)[m] == s[a + m]);
                assert(s[i + nl + 1 + m] == ar[m]);
            }
            assert(s.subrange(a, a + dl) =~= dec_digits(n));
            assert(s[i + nl + 1 + 0] == ar[0]);
            assert(is_digit_char(s[a]));
            assert(!is_ws_char(s[a]));
            lemma_skip_ws_here(s, a);
            assert(s[i + L - 1] == ')');
            assert(a + dl == i + L - 1);
            lemma_int_arg_of(s, a, n, 1);
            assert(parse_command_spec(s, i) == Some((c, i + L)));
        },
        CmdView::Prev(n) => {
            assert(nm == "prev"@);
            let dl = dec_digits(n).len() as int;
            assert(ar =~= dec_digits(n));
            assert(al == dl);
            lemma_dec_digits(n);
            assert forall|m: int| 0 <= m < dl implies s.subrange(a, a + dl)[m] == dec_digits(
                n,
            )[m] by {
                assert(s.subrange(a, a + dl)[m] == s[a + m]);
                assert(s[i + nl + 1 + m] == ar[m]);
            }
            assert(s.subrange(a, a + dl) =~= dec_digits(n));
            assert(s[i + nl + 1 + 0] == ar[0]);
            assert(is_digit_char(s[a]));
            assert(!is_ws_char(s[a]));
            lemma_skip_ws_here(s, a);
            assert(s[i + L - 1] == ')');
            assert(a + dl == i + L - 1);
            lemma_int_arg_of(s, a, n, 1);
            assert(parse_command_spec(s, i) == Some((c, i + L)));
        },
        CmdView::Nth(n) => {
            assert(nm == "nth"@);
            let dl = dec_digits(n).len() as int;
            assert(ar =~= dec_digits(n));
            assert(al == dl);
            lemma_dec_digits(n);
            assert forall|m: int| 0 <= m < dl implies s.subrange(a, a + dl)[m] == dec_digits(
                n,
            )[m] by {
                assert(s.subrange(a, a + dl)[m] == s[a + m]);
                assert(s[i + nl + 1 + m] == ar[m]);
            }
            assert(s.subrange(a, a + dl) =~= dec_digits(n));
            assert(s[i + nl + 1 + 0] == ar[0]);
            assert(is_digit_char(s[a]));
            assert(!is_ws_char(s[a]));
            lemma_skip_ws_here(s, a);
            assert(s[i + L - 1] == ')');
            assert(a + dl == i + L - 1);
            lemma_int_arg_of(s, a, n, 1);
            assert(parse_command_spec(s, i) == Some((c, i + L)));
        },
        CmdView::Replace(p, q) => {
            assert(nm == "replace"@);
            let pl = ser_param(p).len() as int;
            let ql = ser_param(q).len() as int;
            assert(ar =~= ser_param(p) + seq![','] + ser_param(q));
            assert(al == pl + 1 + ql);
            assert forall|m: int| 0 <= m < pl implies s.subrange(a, a + pl)[m] == ser_param(
                p,
            )[m] by {
                assert(s.subrange(a, a + pl)[m] == s[a + m]);
                assert(s[i + nl + 1 + m] == ar[m]);
            }
            assert(s.subrange(a, a + pl) =~= ser_param(p));
            assert(s[i + nl + 1 + pl] == ar[pl]);
            assert(s[a + pl] == ',');
            assert forall|m: int| 0 <= m < ql implies s.subrange(a + pl + 1, a + pl + 1 + ql)[m]
                == ser_param(q)[m] by {
                assert(s.subrange(a + pl + 1, a + pl + 1 + ql)[m] == s[a + pl + 1 + m]);
                assert(s[i + nl + 1 + (pl + 1 + m)] == ar[pl + 1 + m]);
            }
            assert(s.subrange(a + pl + 1, a + pl + 1 + ql) =~= ser_param(q));
            match p {
                ParamView::Static(cc) => {
                    assert(ser_param(p)[0] == '"');
                },
                ParamView::Dynamic(nn) => {
                    assert(ser_param(p)[0] == '$');
                },
            }
            assert(s[i + nl + 1 + 0] == ar[0]);
            assert(!is_ws_char(s[a]));
            lemma_skip_ws_here(s, a);
            assert(s[i + L - 1] == ')');
            assert(a + pl + 1 + ql == i + L - 1);
            lemma_two_params_of(s, a, p, q);
            assert(parse_command_spec(s, i) == Some((c, i + L)));
        },
        CmdView::Uppercase => {
            assert(nm == "uppercase"@);
            assert(al == 0);
            assert(a == i + L - 1);
            assert(s[i + L - 1] == ')');
            lemma_skip_ws_here(s, a);
            assert(close_spec(s, a) == Some(a + 1));
            assert(parse_command_spec(s, i) == Some((c, i + L)));
        },
        CmdView::Lowercase => {
            assert(nm == "lowercase"@);
            assert(al == 0);
            assert(a == i + L - 1);
            assert(s[i + L - 1] == ')');
            lemma_skip_ws_here(s, a);
            assert(close_spec(s, a) == Some(a + 1));
            assert(parse_command_spec(s, i) == Some((c, i + L)));
        },
        CmdView::Insert(n, p) => {
            assert(nm == "insert"@);
            let dl = dec_digits(n).len() as int;
            let pl = ser_param(p).len() as int;
            assert(ar =~= dec_digits(n) + seq![','] + ser_param(p));
            assert(al == dl + 1 + pl);
            lemma_dec_digits(n);
            assert forall|m: int| 0 <= m < dl implies s.subrange(a, a + dl)[m] == dec_digits(
                n,
            )[m] by {
                assert(s.subrange(a, a + dl)[m] == s[a + m]);
                assert(s[i + nl + 1 + m] == ar[m]);
            }
            assert(s.subrange(a, a + dl) =~= dec_digits(n));
            assert(s[i + nl + 1 + dl] == ar[dl]);
            assert(s[a + dl] == ',');
            assert forall|m: int| 0 <= m < pl implies s.subrange(a + dl + 1, a + dl + 1 + pl)[m]
                == ser_param(p)[m] by {
                assert(s.subrange(a + dl + 1, a + dl + 1 + pl)[m] == s[a + dl + 1 + m]);
                assert(s[i + nl + 1 + (dl + 1 + m)] == ar[dl + 1 + m]);
            }
            assert(s.subrange(a + dl + 1, a + dl + 1 + pl) =~= ser_param(p));
            assert(s[i + nl + 1 + 0] == ar[0]);
            assert(is_digit_char(s[a]));
            assert(!is_ws_char(s[a]));
            lemma_skip_ws_here(s, a);
            assert(s[i + L - 1] == ')');
            assert(a + dl + 1 + pl == i + L - 1);
            lemma_int_param_of(s, a, n, p, 0);
            assert(parse_command_spec(s, i) == Some((c, i + L)));
        },
        CmdView::Prepend(p) => {
            assert(nm == "prepend"@);
            let pl = ser_param(p).len() as int;
            assert(ar =~= ser_param(p));
            assert(al == pl);
            assert forall|m: int| 0 <= m < pl implies s.subrange(a, a + pl)[m] == ser_param(
                p,
            )[m] by {
                assert(s.subrange(a, a + pl)[m] == s[a + m]);
                assert(s[i + nl + 1 + m] == ar[m]);
            }
            assert(s.subrange(a, a + pl) =~= ser_param(p));
            match p {
                ParamView::Static(cc) => {
                    assert(ser_param(p)[0] == '"');
                },
                ParamView::Dynamic(nn) => {
                    assert(ser_param(p)[0] == '$');
                },
            }
            assert(s[i + nl + 1 + 0] == ar[0]);
            assert(!is_ws_char(s[a]));
            lemma_skip_ws_here(s, a);
            assert(s[i + L - 1] == ')');
            assert(a + pl == i + L - 1);
            lemma_one_param_of(s, a, p);
            assert(parse_command_spec(s, i) == Some((c, i + L)));
        },
        CmdView::Append(p) => {
            assert(nm == "append"@);
            let pl = ser_param(p).len() as int;
            assert(ar =~= ser_param(p));
            assert(al == pl);
            assert forall|m: int| 0 <= m < pl implies s.subrange(a, a + pl)[m] == ser_param(
                p,
            )[m] by {
                assert(s.subrange(a, a + pl)[m] == s[a + m]);
                assert(s[i + nl + 1 + m] == ar[m]);
            }
            assert(s.subrange(a, a + pl) =~= ser_param(p));
            match p {
                ParamView::Static(cc) => {
                    assert(ser_param(p)[0] == '"');
                },
                ParamView::Dynamic(nn) => {
                    assert(ser_param(p)[0] == '$');
                },
            }
            assert(s[i + nl + 1 + 0] == ar[0]);
            assert(!is_ws_char(s[a]));
            lemma_skip_ws_here(s, a);
            assert(s[i + L - 1] == ')');
            assert(a + pl == i + L - 1);
            lemma_one_param_of(s, a, p);
            assert(parse_command_spec(s, i) == Some((c, i + L)));
        },
        CmdView::Delete(p) => {
            assert(nm == "delete"@);
            let pl = ser_param(p).len() as int;
            assert(ar =~= ser_param(p));
            assert(al == pl);
            assert forall|m: int| 0 <= m < pl implies s.subrange(a, a + pl)[m] == ser_param(
                p,
            )[m] by {
                assert(s.subrange(a, a + pl)[m] == s[a + m]);
                assert(s[i + nl + 1 + m] == ar[m]);
            }
            assert(s.subrange(a, a + pl) =~= ser_param(p));
            match p {
                ParamView::Static(cc) => {
                    assert(ser_param(p)[0] == '"');
                },
                ParamView::Dynamic(nn) => {
                    assert(ser_param(p)[0] == '$');
                },
            }
            assert(s[i + nl + 1 + 0] == ar[0]);
            assert(!is_ws_char(s[a]));
            lemma_skip_ws_here(s, a);
            assert(s[i + L - 1] == ')');
            assert(a + pl == i + L - 1);
            lemma_one_param_of(s, a, p);
            assert(parse_command_spec(s, i) == Some((c, i + L)));
        },
        CmdView::RegexMatch(p) => {
            assert(nm == "regex_match"@);
            let pl = ser_param(p).len() as int;
            assert(ar =~= ser_param(p));
            assert(al == pl);
            assert forall|m: int| 0 <= m < pl implies s.subrange(a, a + pl)[m] == ser_param(
                p,
            )[m] by {
                assert(s.subrange(a, a + pl)[m] == s[a + m]);
                assert(s[i + nl + 1 + m] == ar[m]);
            }
            assert(s.subrange(a, a + pl) =~= ser_param(p));
            match p {
                ParamView::Static(cc) => {
                    assert(ser_param(p)[0] == '"');
                },
                ParamView::Dynamic(nn) => {
                    assert(ser_param(p)[0] == '$');
                },
            }
            assert(s[i + nl + 1 + 0] == ar[0]);
            assert(!is_ws_char(s[a]));
            lemma_skip_ws_here(s, a);
            assert(s[i + L - 1] == ')');
            assert(a + pl == i + L - 1);
            lemma_one_param_of(s, a, p);
            assert(parse_command_spec(s, i) == Some((c, i + L)));
        },
        CmdView::Equals(p) => {
            assert(nm == "equals"@);
            let pl = ser_param(p).len() as int;
            assert(ar =~= ser_param(p));
            assert(al == pl);
            assert forall|m: int| 0 <= m < pl implies s.subrange(a, a + pl)[m] == ser_param(
                p,
            )[m] by {
                assert(s.subrange(a, a + pl)[m] == s[a + m]);
                assert(s[i + nl + 1 + m] == ar[m]);
            }
            assert(s.subrange(a, a + pl) =~= ser_param(p));
            match p {
                ParamView::Static(cc) => {
                    assert(ser_param(p)[0] == '"');
                },
                ParamView::Dynamic(nn) => {
                    assert(ser_param(p)[0] == '$');
                },
            }
            assert(s[i + nl + 1 + 0] == ar[0]);
            assert(!is_ws_char(s[a]));
            lemma_skip_ws_here(s, a);
            assert(s[i + L - 1] == ')');
            assert(a + pl == i + L - 1);
            lemma_one_param_of(s, a, p);
            assert(parse_command_spec(s, i) == Some((c, i + L)));
        },
        CmdView::Html => {
            assert(nm == "html"@);
            assert(al == 0);
            assert(a == i + L - 1);
            assert(s[i + L - 1] == ')');
            lemma_skip_ws_here(s, a);
            assert(close_spec(s, a) == Some(a + 1));
            assert(parse_command_spec(s, i) == Some((c, i + L)));
        },
        CmdView::Attr(p) => {
            assert(nm == "attr"@);
            let pl = ser_param(p).len() as int;
            assert(ar =~= ser_param(p));
            assert(al == pl);
            assert forall|m: int| 0 <= m < pl implies s.subrange(a, a + pl)[m] == ser_param(
                p,
            )[m] by {
                assert(s.subrange(a, a + pl)[m] == s[a + m]);
                assert(s[i + nl + 1 + m] == ar[m]);
            }
            assert(s.subrange(a, a + pl) =~= ser_param(p));
            match p {
                ParamView::Static(cc) => {
                    assert(ser_param(p)[0] == '"');
                },
                ParamView::Dynamic(nn) => {
                    assert(ser_param(p)[0] == '$');
                },
            }
            assert(s[i + nl + 1 + 0] == ar[0]);
            assert(!is_ws_char(s[a]));
            lemma_skip_ws_here(s, a);
            assert(s[i + L - 1] == ')');
            assert(a + pl == i + L - 1);
            lemma_one_param_of(s, a, p);
            assert(parse_command_spec(s, i) == Some((c, i + L)));
        },
        CmdView::Val => {
            assert(nm == "val"@);
            assert(al == 0);
            assert(a == i + L - 1);
            assert(s[i + L - 1] == ')');
            lemma_skip_ws_here(s, a);
            assert(close_spec(s, a) == Some(a + 1));
            assert(parse_command_spec(s, i) == Some((c, i + L)));
        },
        CmdView::RegexExtract(p) => {
            assert(nm == "regex_extract"@);
            let pl = ser_param(p).len() as int;
            assert(ar =~= ser_param(p));
            assert(al == pl);
            assert forall|m: int| 0 <= m < pl implies s.subrange(a, a + pl)[m] == ser_param(
                p,
            )[m] by {
                assert(s.subrange(a, a + pl)[m] == s[a + m]);
                assert(s[i + nl + 1 + m] == ar[m]);
            }
            assert(s.subrange(a, a + pl) =~= ser_param(p));
            match p {
                ParamView::Static(cc) => {
                    assert(ser_param(p)[0] == '"');
                },
                ParamView::Dynamic(nn) => {
                    assert(ser_param(p)[0] == '$');
                },
            }
            assert(s[i + nl + 1 + 0] == ar[0]);
            assert(!is_ws_char(s[a]));
            lemma_skip_ws_here(s, a);
            assert(s[i + L - 1] == ')');
            assert(a + pl == i + L - 1);
            lemma_one_param_of(s, a, p);
            assert(parse_command_spec(s, i) == Some((c, i + L)));
        },
        CmdView::RegexReplace(p, q) => {
            assert(nm == "regex_replace"@);
            let pl = ser_param(p).len() as int;
            let ql = ser_param(q).len() as int;
            assert(ar =~= ser_param(p) + seq![','] + ser_param(q));
            assert(al == pl + 1 + ql);
            assert forall|m: int| 0 <= m < pl implies s.subrange(a, a + pl)[m] == ser_param(
                p,
            )[m] by {
                assert(s.subrange(a, a + pl)[m] == s[a + m]);
                assert(s[i + nl + 1 + m] == ar[m]);
            }
            assert(s.subrange(a, a + pl) =~= ser_param(p));
            assert(s[i + nl + 1 + pl] == ar[pl]);
            assert(s[a + pl] == ',');
            assert forall|m: int| 0 <= m < ql implies s.subrange(a + pl + 1, a + pl + 1 + ql)[m]
                == ser_param(q)[m] by {
                assert(s.subrange(a + pl + 1, a + pl + 1 + ql)[m] == s[a + pl + 1 + m]);
                assert(s[i + nl + 1 + (pl + 1 + m)] == ar[pl + 1 + m]);
            }
            assert(s.subrange(a + pl + 1, a + pl + 1 + ql) =~= ser_param(q));
            match p {
                ParamView::Static(cc) => {
                    assert(ser_param(p)[0] == '"');
                },
                ParamView::Dynamic(nn) => {
                    assert(ser_param(p)[0] == '$');
                },
            }
            assert(s[i + nl + 1 + 0] == ar[0]);
            assert(!is_ws_char(s[a]));
            lemma_skip_ws_here(s, a);
            assert(s[i + L - 1] == ')');
            assert(a + pl + 1 + ql == i + L - 1);
            lemma_two_params_of(s, a, p, q);
            assert(parse_command_spec(s, i) == Some((c, i + L)));
        },
    }
}

} // verus!

verus! {

/// A serialised command list, standing as the whole tail of a text, parses
/// back to itself.
proof fn lemma_cmds_of(s: Seq<char>, i: int, cs: Seq<CmdView>)
    requires
        cs.len() >= 1,
        cmds_wf(cs),
        0 <= i <= s.len(),
        s.subrange(i, s.len() as int) == ser_cmds(cs),
    ensures
        parse_cmds_spec(s, i) == Some(cs),
    decreases cs.len(),
{
    let c = cs[0];
    assert(cmd_wf(c));
    let t1 = ser_cmd(c);
    let l1 = t1.len() as int;
    assert(t1 =~= cmd_name(c) + seq!['('] + ser_args(c) + seq![')']);
    assert(l1 >= 2);
    lemma_sub_transfer(s, i, ser_cmds(cs));
    if cs.len() == 1 {
        assert(ser_cmds(cs) == t1);
        assert(s.len() - i == l1);
        assert(s.subrange(i, i + l1) == ser_cmds(cs));
        lemma_command_of(s, i, c);
        assert(cs =~= seq![c]);
    } else {
        let rest = cs.skip(1);
        assert(ser_cmds(cs) == t1 + seq!['.'] + ser_cmds(rest));
        assert(s.len() - i == l1 + 1 + ser_cmds(rest).len());
        assert forall|m: int| 0 <= m < l1 implies s.subrange(i, i + l1)[m] == t1[m] by {
            assert(s.subrange(i, i + l1)[m] == s[i + m]);
            assert(s[i + m] == ser_cmds(cs)[m]);
            assert(ser_cmds(cs)[m] == t1[m]);
        }
        assert(s.subrange(i, i + l1) =~= t1);
        lemma_command_of(s, i, c);
        assert(s[i + l1] == ser_cmds(cs)[l1]);
        assert(s[i + l1] == '.');
        let i2 = i + l1 + 1;
        assert forall|m: int| 0 <= m < ser_cmds(rest).len() implies s.subrange(
            i2,
            s.len() as int,
        )[m] == ser_cmds(rest)[m] by {
            assert(s.subrange(i2, s.len() as int)[m] == s[i2 + m]);
            assert(s[i + (l1 + 1 + m)] == ser_cmds(cs)[l1 + 1 + m]);
            assert(ser_cmds(cs)[l1 + 1 + m] == ser_cmds(rest)[m]);
        }
        assert(s.subrange(i2, s.len() as int) =~= ser_cmds(rest));
        assert forall|k: int| 0 <= k < rest.len() implies cmd_wf(#[trigger] rest[k]) by {
            assert(rest[k] == cs[k + 1]);
        }
        lemma_cmds_of(s, i2, rest);
        assert(i + l1 < s.len());
        assert(seq![c] + rest =~= cs);
    }
}

/// Parsing the canonical text of a well-formed command list yields that
/// list back: parse, serialise, re-parse is the identity on the parsed
/// structure.
pub proof fn lemma_canonical_round_trip(cs: Seq<CmdView>)
    requires
        cs.len() >= 1,
        cmds_wf(cs),
    ensures
        parse_script_spec(ser_cmds(cs)) == Some(cs),
{
    let s = ser_cmds(cs);
    assert(s.subrange(0, s.len() as int) =~= s);
    lemma_cmds_of(s, 0, cs);
}

} // verus!

verus! {

/// Every character an identifier scan passed over is an identifier
/// character.
proof fn lemma_scan_ident_range(s: Seq<char>, i: int, k: int)
    requires
        0 <= i <= k,
        k < scan_ident_spec(s, i),
    ensures
        k < s.len() && is_ident_char(s[k]),
    decreases k - i,
{
    if i < k {
        if 0 <= i < s.len() && is_ident_char(s[i]) {
            lemma_scan_ident_range(s, i + 1, k);
        }
    }
}

/// Every character a quote scan passed over is not a quote.
proof fn lemma_scan_quote_range(s: Seq<char>, i: int, k: int)
    requires
        0 <= i <= k,
        k < scan_quote_spec(s, i),
    ensures
        k < s.len() && s[k] != '"',
    decreases k - i,
{
    if i < k {
        if 0 <= i < s.len() && s[i] != '"' {
            lemma_scan_quote_range(s, i + 1, k);
        }
    }
}

/// Scans never move backwards.
proof fn lemma_scan_ge(s: Seq<char>, i: int)
    requires
        0 <= i,
    ensures
        scan_ident_spec(s, i) >= i,
        scan_quote_spec(s, i) >= i,
        scan_digits_spec(s, i) >= i,
    decreases s.len() - i,
{
    if i < s.len() {
        lemma_scan_ge(s, i + 1);
    }
}

/// A parsed argument is well formed: its text writes back exactly.
proof fn lemma_parse_param_wf(s: Seq<char>, i: int)
    requires
        parse_param_spec(s, i) is Some,
    ensures
        param_wf(parse_param_spec(s, i)->Some_0.0),
{
    if 0 <= i < s.len() && s[i] == '"' {
        let e = scan_quote_spec(s, i + 1);
        lemma_scan_ge(s, i + 1);
        let content = s.subrange(i + 1, e);
        assert forall|k: int| 0 <= k < content.len() implies content[k] != '"' by {
            assert(content[k] == s[i + 1 + k]);
            lemma_scan_quote_range(s, i + 1, i + 1 + k);
        }
    } else {
        let e = scan_ident_spec(s, i + 2);
        lemma_scan_ge(s, i + 2);
        if e > i + 2 && e < s.len() && s[e] == '}' {
            let name = s.subrange(i + 2, e);
            lemma_all_ident_iff(name);
            assert forall|k: int| 0 <= k < name.len() implies is_ident_char(name[k]) by {
                assert(name[k] == s[i + 2 + k]);
                lemma_scan_ident_range(s, i + 2, i + 2 + k);
            }
        }
    }
}

/// The shapes pass well-formedness through to their arguments.
proof fn lemma_one_param_wf(s: Seq<char>, a: int)
    requires
        one_param_spec(s, a) is Some,
    ensures
        param_wf(one_param_spec(s, a)->Some_0.0),
{
    lemma_parse_param_wf(s, a);
}

proof fn lemma_two_params_wf(s: Seq<char>, a: int)
    requires
        two_params_spec(s, a) is Some,
    ensures
        param_wf(two_params_spec(s, a)->Some_0.0),
        param_wf(two_params_spec(s, a)->Some_0.1),
{
    lemma_parse_param_wf(s, a);
    let j = parse_param_spec(s, a)->Some_0.1;
    let b = comma_spec(s, j)->Some_0;
    lemma_parse_param_wf(s, b);
}

proof fn lemma_int_param_wf(s: Seq<char>, a: int, default: nat)
    requires
        int_param_spec(s, a, default) is Some,
        default <= usize::MAX,
    ensures
        int_param_spec(s, a, default)->Some_0.0 <= usize::MAX,
        param_wf(int_param_spec(s, a, default)->Some_0.1),
{
    let j = parse_usize_spec(s, a, default)->Some_0.1;
    let b = comma_spec(s, j)->Some_0;
    lemma_parse_param_wf(s, b);
}

/// A parsed command is well formed: its canonical text writes back
/// exactly.
proof fn lemma_parse_command_wf(s: Seq<char>, i: int)
    requires
        parse_command_spec(s, i) is Some,
    ensures
        cmd_wf(parse_command_spec(s, i)->Some_0.0),
{
    let e = scan_ident_spec(s, i);
    let name = s.subrange(i, e);
    let a = skip_ws_spec(s, e + 1);
    if name == "selector"@ {
        lemma_one_param_wf(s, a);
    } else if name == "parent"@ {
    } else if name == "prev"@ {
    } else if name == "nth"@ {
    } else if name == "replace"@ {
        lemma_two_params_wf(s, a);
    } else if name == "uppercase"@ {
    } else if name == "lowercase"@ {
    } else if name == "insert"@ {
        lemma_int_param_wf(s, a, 0);
    } else if name == "prepend"@ {
        lemma_one_param_wf(s, a);
    } else if name == "append"@ {
        lemma_one_param_wf(s, a);
    } else if name == "delete"@ {
        lemma_one_param_wf(s, a);
    } else if name == "regex_match"@ {
        lemma_one_param_wf(s, a);
    } else if name == "equals"@ {
        lemma_one_param_wf(s, a);
    } else if name == "html"@ {
    } else if name == "attr"@ {
        lemma_one_param_wf(s, a);
    } else if name == "val"@ {
    } else if name == "regex_extract"@ {
        lemma_one_param_wf(s, a);
    } else if name == "regex_replace"@ {
        lemma_two_params_wf(s, a);
    }
}

/// A parsed command list is non-empty and well formed.
pub proof fn lemma_parse_cmds_wf(s: Seq<char>, i: int)
    requires
        parse_cmds_spec(s, i) is Some,
    ensures
        parse_cmds_spec(s, i)->Some_0.len() >= 1,
        cmds_wf(parse_cmds_spec(s, i)->Some_0),
    decreases s.len() - i,
{
    let (c, j) = parse_command_spec(s, i)->Some_0;
    lemma_parse_command_wf(s, i);
    if j == s.len() {
        let cs = parse_cmds_spec(s, i)->Some_0;
        assert(cs == seq![c]);
        assert forall|k: int| 0 <= k < cs.len() implies cmd_wf(#[trigger] cs[k]) by {
            assert(cs[k] == c);
        }
    } else {
        lemma_parse_cmds_wf(s, j + 1);
        let rest = parse_cmds_spec(s, j + 1)->Some_0;
        let cs = parse_cmds_spec(s, i)->Some_0;
        assert(cs == seq![c] + rest);
        assert forall|k: int| 0 <= k < cs.len() implies cmd_wf(#[trigger] cs[k]) by {
            if k == 0 {
                assert(cs[k] == c);
            } else {
                assert(cs[k] == rest[k - 1]);
            }
        }
    }
}

/// Round trip for every script: parsing a text, serialising the parsed
/// commands canonically, and parsing again yields the same parsed
/// structure (and so the same classification).
pub proof fn lemma_reparse_canonical(s: Seq<char>)
    requires
        parse_script_spec(s) is Some,
    ensures
        parse_script_spec(ser_cmds(parse_script_spec(s)->Some_0)) == parse_script_spec(s),
{
    lemma_parse_cmds_wf(s, 0);
    lemma_canonical_round_trip(parse_script_spec(s)->Some_0);
}

} // verus!
