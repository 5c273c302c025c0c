//! The parts of a validated query and of the schema that resolution reads.
use vstd::prelude::*;
use crate::arguments::Argument;
use crate::directives::Directive;
use crate::input::InputValue;

verus! {

/// A position in the query text.
#[derive(Clone, Copy, Debug, PartialEq, Eq, Structural)]
pub struct SourcePosition {
    pub index: usize,
    pub line: usize,
    pub column: usize,
}

/// A field selection.
#[derive(Debug)]
pub struct Field {
    pub alias: Option<String>,
    pub name: String,
    pub arguments: Option<Vec<(String, InputValue)>>,
    pub directives: Option<Vec<Directive>>,
    pub selection_set: Option<Vec<Selection>>,
    pub position: SourcePosition,
}

/// A use of a named fragment.
#[derive(Debug)]
pub struct FragmentSpread {
    pub name: String,
    pub directives: Option<Vec<Directive>>,
    pub position: SourcePosition,
}

/// A fragment written in place, optionally scoped to a type.
#[derive(Debug)]
pub struct InlineFragment {
    pub type_condition: Option<String>,
    pub directives: Option<Vec<Directive>>,
    pub selection_set: Vec<Selection>,
    pub position: SourcePosition,
}

/// One element of a selection set.
#[derive(Debug)]
pub enum Selection {
    Field(Field),
    FragmentSpread(FragmentSpread),
    InlineFragment(InlineFragment),
}

/// A named fragment of the query document.
#[derive(Debug)]
pub struct Fragment {
    pub name: String,
    pub selection_set: Vec<Selection>,
}

/// The schema's description of one field of a type.
#[derive(Debug)]
pub struct MetaField {
    pub name: String,
    pub arguments: Option<Vec<Argument>>,
    pub non_null: bool,
}

/// The schema's description of a type.
#[derive(Debug)]
pub struct MetaType {
    pub name: String,
    pub fields: Vec<MetaField>,
}

/// What resolution reads and never changes: the schema, the fragments of the
/// document and the bound variables.
#[derive(Debug)]
pub struct ExecContext {
    pub schema: Vec<MetaType>,
    pub fragments: Vec<Fragment>,
    pub variables: Vec<(String, InputValue)>,
}

/// `i` is the first type of `s` named `n`.
pub open spec fn first_type(s: Seq<MetaType>, n: Seq<char>, i: int) -> bool {
    0 <= i < s.len() && s[i].name@ == n && forall|j: int| 0 <= j < i ==> s[j].name@ != n
}

/// The type of the schema named `n`, if any.
pub open spec fn type_by_name(ctx: ExecContext, n: Seq<char>) -> Option<MetaType> {
    if exists|i: int| first_type(ctx.schema@, n, i) {
        Some(ctx.schema@[choose|i: int| first_type(ctx.schema@, n, i)])
    } else {
        None
    }
}

/// `i` is the first field of `s` named `n`.
pub open spec fn first_field(s: Seq<MetaField>, n: Seq<char>, i: int) -> bool {
    0 <= i < s.len() && s[i].name@ == n && forall|j: int| 0 <= j < i ==> s[j].name@ != n
}

/// The field of `t` named `n`, if any.
pub open spec fn field_by_name(t: MetaType, n: Seq<char>) -> Option<MetaField> {
    if exists|i: int| first_field(t.fields@, n, i) {
        Some(t.fields@[choose|i: int| first_field(t.fields@, n, i)])
    } else {
        None
    }
}

/// `i` is the first fragment of `s` named `n`.
pub open spec fn first_fragment(s: Seq<Fragment>, n: Seq<char>, i: int) -> bool {
    0 <= i < s.len() && s[i].name@ == n && forall|j: int| 0 <= j < i ==> s[j].name@ != n
}

/// The fragment of the document named `n`, if any.
pub open spec fn fragment_by_name(ctx: ExecContext, n: Seq<char>) -> Option<Fragment> {
    if exists|i: int| first_fragment(ctx.fragments@, n, i) {
        Some(ctx.fragments@[choose|i: int| first_fragment(ctx.fragments@, n, i)])
    } else {
        None
    }
}

/// Looks up a type of the schema by name.
pub fn find_type<'a>(ctx: &'a ExecContext, n: &String) -> (r: Option<&'a MetaType>)
    ensures
        match r {
            Some(t) => type_by_name(*ctx, n@) == Some(*t),
            None => type_by_name(*ctx, n@) is None,
        },
{
    let ghost s = ctx.schema@;
    let mut i: usize = 0;
    while i < ctx.schema.len()
        invariant
            i <= s.len(),
            s == ctx.schema@,
            forall|j: int| 0 <= j < i ==> s[j].name@ != n@,
        decreases s.len() - i,
    {
        if ctx.schema[i].name == *n {
            proof {
                assert(first_type(s, n@, i as int));
                assert forall|j: int| first_type(s, n@, j) implies j == i by {
                    if j > i {
                        assert(s[i as int].name@ == n@);
                    }
                }
            }
            return Some(&ctx.schema[i]);
        }
        i += 1;
    }
    None
}

/// Looks up a field of a type by name.
pub fn find_field<'a>(t: &'a MetaType, n: &String) -> (r: Option<&'a MetaField>)
    ensures
        match r {
            Some(f) => field_by_name(*t, n@) == Some(*f),
            None => field_by_name(*t, n@) is None,
        },
{
    let ghost s = t.fields@;
    let mut i: usize = 0;
    while i < t.fields.len()
        invariant
            i <= s.len(),
            s == t.fields@,
            forall|j: int| 0 <= j < i ==> s[j].name@ != n@,
        decreases s.len() - i,
    {
        if t.fields[i].name == *n {
            proof {
                assert(first_field(s, n@, i as int));
                assert forall|j: int| first_field(s, n@, j) implies j == i by {
                    if j > i {
                        assert(s[i as int].name@ == n@);
                    }
                }
            }
            return Some(&t.fields[i]);
        }
        i += 1;
    }
    None
}

/// Looks up a fragment of the document by name.
pub fn find_fragment<'a>(ctx: &'a ExecContext, n: &String) -> (r: Option<&'a Fragment>)
    ensures
        match r {
            Some(f) => fragment_by_name(*ctx, n@) == Some(*f),
            None => fragment_by_name(*ctx, n@) is None,
        },
{
    let ghost s = ctx.fragments@;
    let mut i: usize = 0;
    while i < ctx.fragments.len()
        invariant
            i <= s.len(),
            s == ctx.fragments@,
            forall|j: int| 0 <= j < i ==> s[j].name@ != n@,
        decreases s.len() - i,
    {
        if ctx.fragments[i].name == *n {
            proof {
                assert(first_fragment(s, n@, i as int));
                assert forall|j: int| first_fragment(s, n@, j) implies j == i by {
                    if j > i {
                        assert(s[i as int].name@ == n@);
                    }
                }
            }
            return Some(&ctx.fragments[i]);
        }
        i += 1;
    }
    None
}

} // verus!
