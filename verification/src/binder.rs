//! The record binder contract: the one capability an output type supplies,
//! plus the verified field helpers behind the conventional mapping from
//! the variable store onto scalar, optional, list and optional-list
//! fields. Decoding a string into a field's type stays with the caller;
//! the helpers pin down exactly which strings a field sees and which
//! failures arise from the value counts.

use vstd::prelude::*;
use vstd::string::StringExecFns;

use crate::errors::{BindErrView, CrawlerParseError};
use crate::vars::VarStore;

verus! {

/// What an output record type supplies: one parse-from-store operation.
/// The engine calls it once, after all workflows have run.
pub trait CrawlerData: Sized {
    type Error;

    fn parse(map: &VarStore) -> Result<Self, Self::Error>;
}

/// Bind a record type from a finished variable store.
pub fn bind_record<T: CrawlerData>(vars: &VarStore) -> Result<T, T::Error> {
    T::parse(vars)
}

/// A scalar field's string: the variable must hold exactly one value.
/// An absent or empty variable is a missing field; several values are an
/// invalid count.
pub fn bind_scalar(vars: &VarStore, name: &str) -> (r: Result<String, CrawlerParseError>)
    requires
        vars.wf(),
    ensures
        match r {
            Ok(v) => vars@.contains_key(name@) && vars@[name@].len() == 1 && v@
                == vars@[name@][0],
            Err(e) => match e@ {
                BindErrView::MissingField(n) => n == name@ && (!vars@.contains_key(name@)
                    || vars@[name@].len() == 0),
                BindErrView::InvalidValueCount(n, c) => n == name@ && vars@.contains_key(name@)
                    && c == vars@[name@].len() && c > 1,
                _ => false,
            },
        },
{
    match vars.get(name) {
        None => Err(CrawlerParseError::MissingField(copy_str(name))),
        Some(values) => {
            proof {
                assert(values.deep_view().len() == values@.len());
            }
            if values.len() == 0 {
                Err(CrawlerParseError::MissingField(copy_str(name)))
            } else if values.len() > 1 {
                Err(CrawlerParseError::InvalidValueCount(copy_str(name), values.len()))
            } else {
                proof {
                    assert(values.deep_view()[0] == values@[0]@);
                }
                Ok(values[0].clone())
            }
        },
    }
}

/// An optional scalar field's string: an absent or empty variable is
/// `None`, one value is `Some`, several values are an invalid count.
pub fn bind_optional(vars: &VarStore, name: &str) -> (r: Result<
    Option<String>,
    CrawlerParseError,
>)
    requires
        vars.wf(),
    ensures
        match r {
            Ok(ov) => match ov {
                Some(v) => vars@.contains_key(name@) && vars@[name@].len() == 1 && v@
                    == vars@[name@][0],
                None => !vars@.contains_key(name@) || vars@[name@].len() == 0,
            },
            Err(e) => match e@ {
                BindErrView::InvalidValueCount(n, c) => n == name@ && vars@.contains_key(name@)
                    && c == vars@[name@].len() && c > 1,
                _ => false,
            },
        },
{
    match vars.get(name) {
        None => Ok(None),
        Some(values) => {
            proof {
                assert(values.deep_view().len() == values@.len());
            }
            if values.len() == 0 {
                Ok(None)
            } else if values.len() > 1 {
                Err(CrawlerParseError::InvalidValueCount(copy_str(name), values.len()))
            } else {
                proof {
                    assert(values.deep_view()[0] == values@[0]@);
                }
                Ok(Some(values[0].clone()))
            }
        },
    }
}

/// A list field's strings: an absent variable is the empty list; a present
/// one contributes all its values, in capture order.
pub fn bind_list(vars: &VarStore, name: &str) -> (r: Vec<String>)
    requires
        vars.wf(),
    ensures
        r.deep_view() == if vars@.contains_key(name@) {
            vars@[name@]
        } else {
            Seq::<Seq<char>>::empty()
        },
{
    match vars.get(name) {
        None => {
            let r: Vec<String> = Vec::new();
            proof {
                assert(r.deep_view() =~= Seq::<Seq<char>>::empty());
            }
            r
        },
        Some(values) => clone_values(values),
    }
}

/// An optional list field's strings: an absent or empty variable is
/// `None`; a non-empty one is `Some` of all its values in capture order.
pub fn bind_optional_list(vars: &VarStore, name: &str) -> (r: Option<Vec<String>>)
    requires
        vars.wf(),
    ensures
        match r {
            Some(v) => vars@.contains_key(name@) && vars@[name@].len() > 0 && v.deep_view()
                == vars@[name@],
            None => !vars@.contains_key(name@) || vars@[name@].len() == 0,
        },
{
    match vars.get(name) {
        None => None,
        Some(values) => {
            proof {
                assert(values.deep_view().len() == values@.len());
            }
            if values.len() == 0 {
                None
            } else {
                Some(clone_values(values))
            }
        },
    }
}

/// An owned copy of a borrowed string.
fn copy_str(s: &str) -> (r: String)
    ensures
        r@ == s@,
{
    let mut out = String::new();
    out.append(s);
    out
}

/// An element-wise copy of a value list.
pub(crate) fn clone_values(values: &Vec<String>) -> (r: Vec<String>)
    ensures
        r.deep_view() == values.deep_view(),
{
    let mut r: Vec<String> = Vec::new();
    let mut k: usize = 0;
    while k < values.len()
        invariant
            k <= values@.len(),
            r@ =~= values@.take(k as int),
        decreases values@.len() - k,
    {
        r.push(values[k].clone());
        assert(r@ =~= values@.take(k + 1));
        k = k + 1;
    }
    proof {
        assert(values@.take(values@.len() as int) =~= values@);
        assert(r.deep_view() =~~= values.deep_view());
    }
    r
}

} // verus!
