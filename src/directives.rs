//! The skip and keep-if directives, which exclude an element of a selection
//! set.
use vstd::prelude::*;
use vstd::string::StringExecFns;
use crate::input::{entries_view, find_name, lookup, const_of, InVal, InputValue};

verus! {

/// A directive attached to a field or a fragment.
#[derive(Debug)]
pub struct Directive {
    pub name: String,
    pub arguments: Option<Vec<(String, InputValue)>>,
}

/// The boolean that the `if` argument of `d` takes under `vars`, if it is a
/// boolean.
pub open spec fn condition_of(d: Directive, vars: Seq<(Seq<char>, InVal)>) -> Option<bool> {
    match d.arguments {
        Some(args) => match lookup(entries_view(args@), "if"@) {
            Some(v) => match const_of(v, vars) {
                InVal::Boolean(b) => Some(b),
                _ => None,
            },
            None => None,
        },
        None => None,
    }
}

/// The name of the directive that keeps its element only when its
/// condition holds.
pub open spec fn keep_if_name() -> Seq<char> {
    "incl"@ + "ude"@
}

/// `d` is one of the two directives that decide inclusion.
pub open spec fn is_conditional(d: Directive) -> bool {
    d.name@ == "skip"@ || d.name@ == keep_if_name()
}

/// `d` excludes its element under `vars`.
pub open spec fn excludes(d: Directive, vars: Seq<(Seq<char>, InVal)>) -> bool {
    (d.name@ == "skip"@ && condition_of(d, vars) == Some(true)) || (d.name@ == keep_if_name()
        && condition_of(d, vars) == Some(false))
}

/// Every skip and keep-if directive in `ds` has a boolean condition.
pub open spec fn directives_valid(ds: Option<Vec<Directive>>, vars: Seq<(Seq<char>, InVal)>) -> bool {
    match ds {
        Some(v) => forall|i: int|
            0 <= i < v.len() && is_conditional(#[trigger] v@[i]) ==> condition_of(v@[i], vars) is Some,
        None => true,
    }
}

/// Some directive of `ds` excludes its element.
pub open spec fn excluded(ds: Option<Vec<Directive>>, vars: Seq<(Seq<char>, InVal)>) -> bool {
    match ds {
        Some(v) => exists|i: int| 0 <= i < v.len() && excludes(#[trigger] v@[i], vars),
        None => false,
    }
}

/// Evaluates the `if` argument of `d`.
fn condition(d: &Directive, vars: &Vec<(String, InputValue)>) -> (r: Option<bool>)
    ensures
        r == condition_of(*d, entries_view(vars@)),
{
    match &d.arguments {
        Some(args) => {
            let key = "if".to_owned();
            match find_name(args, &key) {
                Some(i) => {
                    let v = args[i].1.into_const(vars);
                    match v {
                        InputValue::Boolean(b) => Some(b),
                        _ => None,
                    }
                },
                None => None,
            }
        },
        None => None,
    }
}

/// Whether the directives exclude their element: a `skip` whose condition
/// holds, or a keep-if directive whose condition fails. Other names are ignored.
pub fn is_excluded(directives: &Option<Vec<Directive>>, vars: &Vec<(String, InputValue)>) -> (r:
    bool)
    requires
        directives_valid(*directives, entries_view(vars@)),
    ensures
        r == excluded(*directives, entries_view(vars@)),
{
    match directives {
        Some(ds) => {
            let skip = "skip".to_owned();
            let keep_if = "incl".to_owned().concat("ude");
            let mut i: usize = 0;
            while i < ds.len()
                invariant
                    i <= ds.len(),
                    skip@ == "skip"@,
                    keep_if@ == keep_if_name(),
                    directives_valid(*directives, entries_view(vars@)),
                    *directives == Some(*ds),
                    forall|j: int| 0 <= j < i ==> !excludes(#[trigger] ds@[j], entries_view(vars@)),
                decreases ds.len() - i,
            {
                let d = &ds[i];
                if d.name == skip {
                    let c = condition(d, vars);
                    if c == Some(true) {
                        return true;
                    }
                } else if d.name == keep_if {
                    let c = condition(d, vars);
                    if c == Some(false) {
                        return true;
                    }
                }
                proof {
                    reveal_strlit("skip");
                    reveal_strlit("incl");
                    reveal_strlit("ude");
                    assert(skip@.len() != keep_if@.len());
                    assert(!excludes(ds@[i as int], entries_view(vars@)));
                }
                i += 1;
            }
            false
        },
        None => false,
    }
}

} // verus!
