//! Character-level string operations used by the script commands:
//! substring replacement and insertion with exact spec functions and their
//! laws, Unicode case mapping relied upon from std under named results,
//! and the filename-cleaning helpers of the surrounding modules.

use vstd::prelude::*;

verus! {

/// The Unicode uppercase image of a character sequence, as
/// `str::to_uppercase` computes it: a function of the characters alone.
pub uninterp spec fn upper_of(s: Seq<char>) -> Seq<char>;

/// The Unicode lowercase image of a character sequence, as
/// `str::to_lowercase` computes it: a function of the characters alone.
pub uninterp spec fn lower_of(s: Seq<char>) -> Seq<char>;

/// The lowercase image of one character under ASCII case mapping; used for
/// configuration keywords and identifier normal forms, which are ASCII.
pub open spec fn lower_char_spec(c: char) -> char {
    if 'A' <= c && c <= 'Z' {
        ((c as u32) + 32) as char
    } else {
        c
    }
}

/// The lowercase image of a character sequence under ASCII case mapping.
pub open spec fn lower_seq(s: Seq<char>) -> Seq<char> {
    s.map_values(|c: char| lower_char_spec(c))
}

/// Left-to-right replacement of every non-overlapping occurrence of `from`
/// by `to`. An empty `from` never matches, so it leaves the input unchanged.
pub open spec fn replace_spec(s: Seq<char>, from: Seq<char>, to: Seq<char>) -> Seq<char>
    decreases s.len(),
{
    if from.len() == 0 || s.len() < from.len() {
        s
    } else if s.subrange(0, from.len() as int) == from {
        to + replace_spec(s.skip(from.len() as int), from, to)
    } else {
        seq![s[0]] + replace_spec(s.skip(1), from, to)
    }
}

/// `p` inserted into `s` before the character at position `at`; an `at`
/// beyond the end appends.
pub open spec fn insert_spec(s: Seq<char>, at: nat, p: Seq<char>) -> Seq<char> {
    let cut = if at <= s.len() {
        at as int
    } else {
        s.len() as int
    };
    s.take(cut) + p + s.skip(cut)
}


/// Replacing a string by itself is the identity on any input.
pub proof fn lemma_replace_identity(s: Seq<char>, a: Seq<char>)
    ensures
        replace_spec(s, a, a) == s,
    decreases s.len(),
{
    if a.len() == 0 || s.len() < a.len() {
    } else if s.subrange(0, a.len() as int) == a {
        lemma_replace_identity(s.skip(a.len() as int), a);
        assert(replace_spec(s, a, a) =~= s);
    } else {
        lemma_replace_identity(s.skip(1), a);
        assert(replace_spec(s, a, a) =~= s);
    }
}

/// Whitespace, for filename cleaning: space, tab, newline, carriage
/// return.
pub open spec fn is_space(c: char) -> bool {
    c == ' ' || c == '\t' || c == '\n' || c == '\r'
}

/// Characters that are not allowed in a file name.
pub open spec fn is_illegal_filename_char(c: char) -> bool {
    c == '<' || c == '>' || c == ':' || c == '"' || c == '/' || c == '\\' || c == '|' || c == '?'
        || c == '*'
}

/// ASCII letters and digits.
pub open spec fn is_ascii_alnum(c: char) -> bool {
    ('a' <= c && c <= 'z') || ('A' <= c && c <= 'Z') || ('0' <= c && c <= '9')
}

/// The filter keeping characters legal in file names.
pub open spec fn keep_legal() -> spec_fn(char) -> bool {
    |ch: char| !is_illegal_filename_char(ch)
}

/// The filter keeping ASCII letters and digits.
pub open spec fn keep_alnum() -> spec_fn(char) -> bool {
    |ch: char| is_ascii_alnum(ch)
}

/// Whitespace runs collapsed to single spaces, with leading and trailing
/// whitespace dropped: `started` says whether a word was emitted yet, and
/// `gap` whether whitespace was seen since.
pub open spec fn collapse_go(s: Seq<char>, i: int, started: bool, gap: bool) -> Seq<char>
    decreases s.len() - i,
{
    if i < 0 || i >= s.len() {
        Seq::empty()
    } else if is_space(s[i]) {
        collapse_go(s, i + 1, started, true)
    } else {
        (if started && gap {
            seq![' ']
        } else {
            Seq::empty()
        }) + seq![s[i]] + collapse_go(s, i + 1, true, false)
    }
}

/// Whitespace-normalised text.
pub open spec fn collapse_spec(s: Seq<char>) -> Seq<char> {
    collapse_go(s, 0, false, false)
}

/// The text without its trailing whitespace.
pub open spec fn trim_end_spec(s: Seq<char>) -> Seq<char>
    decreases s.len(),
{
    if s.len() > 0 && is_space(s.last()) {
        trim_end_spec(s.drop_last())
    } else {
        s
    }
}

/// A cleaned file name: illegal characters removed, whitespace collapsed,
/// and the result cut to at most 100 characters without a ragged trailing
/// space.
pub open spec fn sanitize_spec(s: Seq<char>) -> Seq<char> {
    let c = collapse_spec(s.filter(keep_legal()));
    if c.len() > 100 {
        trim_end_spec(c.take(100))
    } else {
        c
    }
}

/// The characters of `s` that are legal in file names.
fn filter_illegal(s: &Vec<char>) -> (r: Vec<char>)
    ensures
        r@ == s@.filter(keep_legal()),
{
    let ghost pred = keep_legal();
    let mut r: Vec<char> = Vec::new();
    let mut k: usize = 0;
    proof {
        reveal(Seq::filter);
        assert(s@.take(0) =~= Seq::<char>::empty());
        assert(Seq::<char>::empty().filter(pred) =~= Seq::<char>::empty());
    }
    while k < s.len()
        invariant
            k <= s@.len(),
            pred == keep_legal(),
            r@ == s@.take(k as int).filter(pred),
        decreases s@.len() - k,
    {
        let c = s[k];
        let keep = !(c == '<' || c == '>' || c == ':' || c == '"' || c == '/' || c == '\\' || c
            == '|' || c == '?' || c == '*');
        if keep {
            r.push(c);
        }
        proof {
            reveal(Seq::filter);
            assert(s@.take(k + 1).drop_last() =~= s@.take(k as int));
            assert(s@.take(k + 1).last() == s@[k as int]);
            assert(c == s@[k as int]);
            assert(is_illegal_filename_char(c) == !keep);
            assert(pred(s@[k as int]) == keep);
        }
        k = k + 1;
    }
    proof {
        assert(s@.take(s@.len() as int) =~= s@);
    }
    r
}

/// Whitespace runs collapsed to single spaces, leading and trailing runs
/// dropped.
fn collapse_chars(s: &Vec<char>) -> (r: Vec<char>)
    ensures
        r@ == collapse_spec(s@),
{
    let mut out: Vec<char> = Vec::new();
    let mut started: bool = false;
    let mut gap: bool = false;
    let mut i: usize = 0;
    proof {
        assert(Seq::<char>::empty() + collapse_go(s@, 0, false, false) =~= collapse_go(
            s@,
            0,
            false,
            false,
        ));
    }
    while i < s.len()
        invariant
            i <= s@.len(),
            collapse_spec(s@) == out@ + collapse_go(s@, i as int, started, gap),
        decreases s@.len() - i,
    {
        let c = s[i];
        if c == ' ' || c == '\t' || c == '\n' || c == '\r' {
            gap = true;
        } else {
            let ghost pre = out@;
            if started && gap {
                out.push(' ');
                out.push(c);
                proof {
                    assert(out@ =~= pre + (seq![' '] + seq![c]));
                    assert(pre + (seq![' '] + seq![c]) + collapse_go(s@, i + 1, true, false)
                        =~= pre + (seq![' '] + seq![c] + collapse_go(s@, i + 1, true, false)));
                }
            } else {
                out.push(c);
                proof {
                    assert(out@ =~= pre + (Seq::<char>::empty() + seq![c]));
                    assert(pre + (Seq::<char>::empty() + seq![c]) + collapse_go(
                        s@,
                        i + 1,
                        true,
                        false,
                    ) =~= pre + (Seq::<char>::empty() + seq![c] + collapse_go(
                        s@,
                        i + 1,
                        true,
                        false,
                    )));
                }
            }
            started = true;
            gap = false;
        }
        i = i + 1;
    }
    proof {
        assert(collapse_go(s@, i as int, started, gap) =~= Seq::<char>::empty());
        assert(out@ + Seq::<char>::empty() =~= out@);
    }
    out
}

/// The vector without its trailing whitespace.
fn trim_end_chars(s: Vec<char>) -> (r: Vec<char>)
    ensures
        r@ == trim_end_spec(s@),
{
    let ghost orig = s@;
    let mut v = s;
    loop
        invariant
            trim_end_spec(orig) == trim_end_spec(v@),
        ensures
            trim_end_spec(orig) == trim_end_spec(v@),
            v@.len() == 0 || !is_space(v@.last()),
        decreases v@.len(),
    {
        let n = v.len();
        if n == 0 {
            break;
        }
        let c = v[n - 1];
        if c == ' ' || c == '\t' || c == '\n' || c == '\r' {
            v.pop();
        } else {
            break;
        }
    }
    proof {
        assert(trim_end_spec(v@) == v@);
    }
    v
}

/// A cleaned file name, computed: see [`sanitize_spec`].
pub fn sanitize_filename_text(s: &str) -> (r: String)
    ensures
        r@ == sanitize_spec(s@),
{
    let chars = str_chars(s);
    let kept = filter_illegal(&chars);
    let collapsed = collapse_chars(&kept);
    if collapsed.len() > 100 {
        let mut cut: Vec<char> = Vec::new();
        let mut k: usize = 0;
        while k < 100
            invariant
                k <= 100,
                collapsed@.len() > 100,
                cut@ == collapsed@.take(k as int),
            decreases 100 - k,
        {
            cut.push(collapsed[k]);
            assert(cut@ =~= collapsed@.take(k + 1));
            k = k + 1;
        }
        chars_to_string(&trim_end_chars(cut))
    } else {
        chars_to_string(&collapsed)
    }
}

/// The ASCII-alphanumeric characters of `s`, lowercased: the normal form
/// of an identifier.
pub fn normalize_identifier_text(s: &str) -> (r: String)
    ensures
        r@ == lower_seq(s@.filter(keep_alnum())),
{
    let ghost pred = keep_alnum();
    let chars = str_chars(s);
    let mut kept: Vec<char> = Vec::new();
    let mut k: usize = 0;
    proof {
        reveal(Seq::filter);
        assert(chars@.take(0) =~= Seq::<char>::empty());
        assert(Seq::<char>::empty().filter(pred) =~= Seq::<char>::empty());
    }
    while k < chars.len()
        invariant
            k <= chars@.len(),
            chars@ == s@,
            pred == keep_alnum(),
            kept@ == chars@.take(k as int).filter(pred),
        decreases chars@.len() - k,
    {
        let c = chars[k];
        let keep = ('a' <= c && c <= 'z') || ('A' <= c && c <= 'Z') || ('0' <= c && c <= '9');
        if keep {
            kept.push(c);
        }
        proof {
            reveal(Seq::filter);
            assert(chars@.take(k + 1).drop_last() =~= chars@.take(k as int));
            assert(chars@.take(k + 1).last() == chars@[k as int]);
            assert(c == chars@[k as int]);
            assert(is_ascii_alnum(c) == keep);
            assert(pred(chars@[k as int]) == keep);
        }
        k = k + 1;
    }
    proof {
        assert(chars@.take(chars@.len() as int) =~= chars@);
    }
    chars_to_string(&lower_chars(&kept))
}

/// Relies on `str::to_uppercase`: the Unicode uppercase mapping, a pure
/// function of the input's characters; the empty string stays empty.
#[verifier::external_body]
pub(crate) fn to_uppercase_str(s: &str) -> (r: String)
    ensures
        r@ == upper_of(s@),
        s@.len() == 0 ==> r@.len() == 0,
{
    s.to_uppercase()
}

/// Relies on `str::to_lowercase`: the Unicode lowercase mapping, a pure
/// function of the input's characters; the empty string stays empty.
#[verifier::external_body]
pub(crate) fn to_lowercase_str(s: &str) -> (r: String)
    ensures
        r@ == lower_of(s@),
        s@.len() == 0 ==> r@.len() == 0,
{
    s.to_lowercase()
}

/// The ASCII lowercase image of one character, computed.
fn lower_char(c: char) -> (r: char)
    ensures
        r == lower_char_spec(c),
{
    match c {
        'A' => 'a',
        'B' => 'b',
        'C' => 'c',
        'D' => 'd',
        'E' => 'e',
        'F' => 'f',
        'G' => 'g',
        'H' => 'h',
        'I' => 'i',
        'J' => 'j',
        'K' => 'k',
        'L' => 'l',
        'M' => 'm',
        'N' => 'n',
        'O' => 'o',
        'P' => 'p',
        'Q' => 'q',
        'R' => 'r',
        'S' => 's',
        'T' => 't',
        'U' => 'u',
        'V' => 'v',
        'W' => 'w',
        'X' => 'x',
        'Y' => 'y',
        'Z' => 'z',
        _ => c,
    }
}

/// Relies on `Iterator::collect` for `String` from characters: the collected
/// string holds exactly the characters of `v` in order.
#[verifier::external_body]
pub(crate) fn chars_to_string(v: &Vec<char>) -> (r: String)
    ensures
        r@ == v@,
{
    v.iter().collect()
}

/// The characters of `s`, in order, as a vector.
pub fn str_chars(s: &str) -> (r: Vec<char>)
    ensures
        r@ == s@,
{
    let n = s.unicode_len();
    let mut r: Vec<char> = Vec::new();
    let mut i: usize = 0;
    while i < n
        invariant
            i <= n,
            n == s@.len(),
            r@ == s@.take(i as int),
        decreases n - i,
    {
        r.push(s.get_char(i));
        assert(r@ =~= s@.take(i + 1));
        i = i + 1;
    }
    assert(r@ =~= s@);
    r
}

/// The lowercase image of `v` under ASCII case mapping.
pub fn lower_chars(v: &Vec<char>) -> (r: Vec<char>)
    ensures
        r@ == lower_seq(v@),
{
    let mut r: Vec<char> = Vec::new();
    let mut i: usize = 0;
    while i < v.len()
        invariant
            i <= v@.len(),
            r@ == lower_seq(v@.take(i as int)),
        decreases v@.len() - i,
    {
        r.push(lower_char(v[i]));
        assert(r@ =~= lower_seq(v@.take(i + 1)));
        i = i + 1;
    }
    assert(v@.take(v@.len() as int) =~= v@);
    r
}

/// Character-wise string equality.
pub fn str_eq(a: &str, b: &str) -> (r: bool)
    ensures
        r == (a@ == b@),
{
    let na = a.unicode_len();
    let nb = b.unicode_len();
    if na != nb {
        return false;
    }
    let mut i: usize = 0;
    while i < na
        invariant
            i <= na,
            na == a@.len(),
            na == b@.len(),
            forall|k: int| 0 <= k < i ==> a@[k] == b@[k],
        decreases na - i,
    {
        if a.get_char(i) != b.get_char(i) {
            return false;
        }
        i = i + 1;
    }
    assert(a@ =~= b@);
    true
}

/// Whether `from` occurs in `s` starting at position `at`.
fn matches_at(s: &Vec<char>, at: usize, from: &Vec<char>) -> (r: bool)
    requires
        at <= s@.len(),
    ensures
        r == (at + from@.len() <= s@.len() && s@.subrange(
            at as int,
            at + from@.len(),
        ) == from@),
{
    if from.len() > s.len() - at {
        return false;
    }
    assert(s@.len() <= usize::MAX);
    let mut j: usize = 0;
    while j < from.len()
        invariant
            j <= from@.len(),
            at + from@.len() <= s@.len(),
            s@.len() <= usize::MAX,
            forall|k: int| 0 <= k < j ==> s@[at + k] == from@[k],
        decreases from@.len() - j,
    {
        if s[at + j] != from[j] {
            assert(s@.subrange(at as int, at + from@.len())[j as int] != from@[j as int]);
            return false;
        }
        j = j + 1;
    }
    assert(s@.subrange(at as int, at + from@.len()) =~= from@);
    true
}

/// Replacement of every non-overlapping occurrence of `from` in `s` by `to`,
/// scanning left to right.
pub fn replace_chars(s: &Vec<char>, from: &Vec<char>, to: &Vec<char>) -> (r: Vec<char>)
    ensures
        r@ == replace_spec(s@, from@, to@),
{
    if from.len() == 0 {
        let mut r: Vec<char> = Vec::new();
        let mut i: usize = 0;
        while i < s.len()
            invariant
                i <= s@.len(),
                r@ == s@.take(i as int),
            decreases s@.len() - i,
        {
            r.push(s[i]);
            assert(r@ =~= s@.take(i + 1));
            i = i + 1;
        }
        assert(r@ =~= s@);
        return r;
    }
    let mut r: Vec<char> = Vec::new();
    let mut i: usize = 0;
    proof {
        assert(s@.skip(0) =~= s@);
        assert(Seq::<char>::empty() + replace_spec(s@, from@, to@) =~= replace_spec(
            s@,
            from@,
            to@,
        ));
    }
    while i < s.len()
        invariant
            i <= s@.len(),
            from@.len() > 0,
            replace_spec(s@, from@, to@) == r@ + replace_spec(s@.skip(i as int), from@, to@),
        decreases s@.len() - i,
    {
        let ghost prev = r@;
        if matches_at(s, i, from) {
            let mut j: usize = 0;
            while j < to.len()
                invariant
                    j <= to@.len(),
                    r@ == prev + to@.take(j as int),
                decreases to@.len() - j,
            {
                r.push(to[j]);
                assert(r@ =~= prev + to@.take(j + 1));
                j = j + 1;
            }
            assert(r@ =~= prev + to@);
            proof {
                let rest = s@.skip(i as int);
                assert(rest.subrange(0, from@.len() as int) =~= s@.subrange(
                    i as int,
                    i + from@.len(),
                ));
                assert(replace_spec(rest, from@, to@) == to@ + replace_spec(
                    rest.skip(from@.len() as int),
                    from@,
                    to@,
                ));
                assert(rest.skip(from@.len() as int) =~= s@.skip(i + from@.len()));
                assert(prev + to@ + replace_spec(s@.skip(i + from@.len()), from@, to@) =~= prev
                    + (to@ + replace_spec(s@.skip(i + from@.len()), from@, to@)));
            }
            i = i + from.len();
        } else {
            r.push(s[i]);
            proof {
                let rest = s@.skip(i as int);
                if rest.len() >= from@.len() {
                    assert(rest.subrange(0, from@.len() as int) =~= s@.subrange(
                        i as int,
                        i + from@.len(),
                    ));
                }
                assert(rest[0] == s@[i as int]);
                assert(replace_spec(rest, from@, to@) == seq![s@[i as int]] + replace_spec(
                    rest.skip(1),
                    from@,
                    to@,
                ));
                assert(rest.skip(1) =~= s@.skip(i + 1));
                assert(prev.push(s@[i as int]) =~= prev + seq![s@[i as int]]);
                assert(prev + seq![s@[i as int]] + replace_spec(s@.skip(i + 1), from@, to@) =~= prev
                    + (seq![s@[i as int]] + replace_spec(s@.skip(i + 1), from@, to@)));
            }
            i = i + 1;
        }
    }
    proof {
        assert(s@.skip(s@.len() as int) =~= Seq::<char>::empty());
        assert(replace_spec(Seq::<char>::empty(), from@, to@) =~= Seq::<char>::empty());
        assert(r@ + Seq::<char>::empty() =~= r@);
    }
    r
}

/// `p` inserted into `s` before position `at`, clamped to the end.
pub fn insert_chars(s: &Vec<char>, at: usize, p: &Vec<char>) -> (r: Vec<char>)
    ensures
        r@ == insert_spec(s@, at as nat, p@),
{
    let cut = if at <= s.len() {
        at
    } else {
        s.len()
    };
    let mut r: Vec<char> = Vec::new();
    let mut i: usize = 0;
    while i < cut
        invariant
            cut <= s@.len(),
            i <= cut,
            r@ == s@.take(cut as int).take(i as int),
        decreases cut - i,
    {
        r.push(s[i]);
        assert(r@ =~= s@.take(cut as int).take(i + 1));
        i = i + 1;
    }
    assert(r@ =~= s@.take(cut as int));
    let ghost head = r@;
    let mut j: usize = 0;
    while j < p.len()
        invariant
            j <= p@.len(),
            r@ == head + p@.take(j as int),
        decreases p@.len() - j,
    {
        r.push(p[j]);
        assert(r@ =~= head + p@.take(j + 1));
        j = j + 1;
    }
    assert(r@ =~= head + p@);
    let ghost mid = r@;
    let mut k: usize = cut;
    while k < s.len()
        invariant
            cut <= k <= s@.len(),
            r@ == mid + s@.subrange(cut as int, k as int),
        decreases s@.len() - k,
    {
        r.push(s[k]);
        assert(r@ =~= mid + s@.subrange(cut as int, k + 1));
        k = k + 1;
    }
    assert(r@ =~= s@.take(cut as int) + p@ + s@.skip(cut as int));
    r
}

} // verus!
