//! File-organisation decisions: cleaned file names, normalised movie
//! identifiers, conflict-free name choices and subtitle move plans. The
//! decisions are all functions from plain values to plain values; touching
//! the file system is left to the caller.

use vstd::prelude::*;

use vstd::string::StringExecFns;

use crate::text::{
    keep_alnum, lower_seq, normalize_identifier_text, sanitize_filename_text, sanitize_spec,
    str_eq,
};

verus! {

/// Decides where processed video files go and under which names.
pub struct FileOrganizer;

/// The candidate name for resolving a conflict: `stem (i)` with the
/// extension kept.
pub open spec fn conflict_name_spec(stem: Seq<char>, ext: Seq<char>, i: nat) -> Seq<char> {
    if ext.len() == 0 {
        stem + seq![' ', '('] + crate::parser::dec_digits(i) + seq![')']
    } else {
        stem + seq![' ', '('] + crate::parser::dec_digits(i) + seq![')', '.'] + ext
    }
}

impl FileOrganizer {
    /// A new organiser.
    pub fn new() -> (r: FileOrganizer) {
        FileOrganizer
    }

    /// A file name cleaned for the file system: illegal characters
    /// removed, whitespace runs collapsed, length capped.
    pub fn sanitize_filename(&self, filename: &str) -> (r: String)
        ensures
            r@ == sanitize_spec(filename@),
    {
        sanitize_filename_text(filename)
    }

    /// A movie identifier in normal form: ASCII letters and digits only,
    /// lowercased.
    pub fn normalize_identifier(&self, identifier: &str) -> (r: String)
        ensures
            r@ == lower_seq(identifier@.filter(keep_alnum())),
    {
        normalize_identifier_text(identifier)
    }

    /// A name for `stem.ext` that collides with none of `taken`: the plain
    /// name when free, else `stem (i)` for the first free `i` from 1 up to
    /// 999; `None` when even those are all taken.
    pub fn resolve_filename_conflict(
        &self,
        stem: &str,
        ext: &str,
        taken: &Vec<String>,
    ) -> (r: Option<String>)
        ensures
            match r {
                Some(name) => forall|k: int|
                    0 <= k < taken@.len() ==> taken@[k]@ != name@,
                None => true,
            },
    {
        let plain = if ext.unicode_len() == 0 {
            copy_of(stem)
        } else {
            let mut s = copy_of(stem);
            s.append(".");
            s.append(ext);
            s
        };
        if !name_taken(&plain, taken) {
            return Some(plain);
        }
        let mut i: usize = 1;
        while i <= 999
            invariant
                1 <= i <= 1000,
            decreases 1000 - i,
        {
            let candidate = conflict_candidate(stem, ext, i);
            if !name_taken(&candidate, taken) {
                return Some(candidate);
            }
            i = i + 1;
        }
        None
    }

    /// The move plan for subtitle files: for each extension, the source
    /// name `original_stem.ext` paired with the destination name
    /// `new_stem.ext`. The caller moves whichever sources exist.
    pub fn move_subtitle_files(
        &self,
        original_stem: &str,
        new_stem: &str,
        extensions: &Vec<String>,
    ) -> (r: Vec<(String, String)>)
        ensures
            r@.len() == extensions@.len(),
            forall|k: int|
                0 <= k < r@.len() ==> (#[trigger] r@[k]).0@ == original_stem@ + seq!['.']
                    + extensions@[k]@ && r@[k].1@ == new_stem@ + seq!['.'] + extensions@[k]@,
    {
        let mut r: Vec<(String, String)> = Vec::new();
        let mut k: usize = 0;
        while k < extensions.len()
            invariant
                k <= extensions@.len(),
                r@.len() == k,
                forall|q: int|
                    0 <= q < r@.len() ==> (#[trigger] r@[q]).0@ == original_stem@ + seq!['.']
                        + extensions@[q]@ && r@[q].1@ == new_stem@ + seq!['.']
                        + extensions@[q]@,
            decreases extensions@.len() - k,
        {
            let mut from = copy_of(original_stem);
            from.append(".");
            from.append(extensions[k].as_str());
            let mut to = copy_of(new_stem);
            to.append(".");
            to.append(extensions[k].as_str());
            proof {
                reveal_strlit(".");
                assert(from@ =~= original_stem@ + seq!['.'] + extensions@[k as int]@);
                assert(to@ =~= new_stem@ + seq!['.'] + extensions@[k as int]@);
            }
            r.push((from, to));
            k = k + 1;
        }
        r
    }
}

/// The candidate `stem (i)` name with the extension kept.
fn conflict_candidate(stem: &str, ext: &str, i: usize) -> (r: String)
    ensures
        r@ == conflict_name_spec(stem@, ext@, i as nat),
{
    let mut out: Vec<char> = Vec::new();
    crate::parser::push_str_chars(&mut out, stem);
    out.push(' ');
    out.push('(');
    crate::parser::push_decimal(&mut out, i);
    out.push(')');
    if ext.unicode_len() == 0 {
        proof {
            assert(out@ =~= conflict_name_spec(stem@, ext@, i as nat));
        }
        crate::text::chars_to_string(&out)
    } else {
        out.push('.');
        crate::parser::push_str_chars(&mut out, ext);
        proof {
            assert(out@ =~= conflict_name_spec(stem@, ext@, i as nat));
        }
        crate::text::chars_to_string(&out)
    }
}

/// Whether a name occurs among the taken ones.
fn name_taken(name: &String, taken: &Vec<String>) -> (r: bool)
    ensures
        r == exists|k: int| 0 <= k < taken@.len() && taken@[k]@ == name@,
{
    let mut k: usize = 0;
    while k < taken.len()
        invariant
            k <= taken@.len(),
            forall|q: int| 0 <= q < k ==> taken@[q]@ != name@,
        decreases taken@.len() - k,
    {
        if str_eq(taken[k].as_str(), name.as_str()) {
            return true;
        }
        k = k + 1;
    }
    false
}

/// An owned copy of a borrowed string.
fn copy_of(s: &str) -> (r: String)
    ensures
        r@ == s@,
{
    let mut out = String::new();
    out.append(s);
    out
}

} // verus!
