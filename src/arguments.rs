//! The argument table handed to a field's resolver: the caller's arguments
//! completed with the schema's defaults.
use vstd::prelude::*;
use crate::convert::FromInputValue;
use crate::input::{first_named, has_name, lookup, InVal, InputValue};
use ordermap::OrderMap;

verus! {

#[verifier::external_type_specification]
#[verifier::external_body]
#[verifier::reject_recursive_types(K)]
#[verifier::reject_recursive_types(V)]
#[verifier::reject_recursive_types(S)]
pub struct ExOrderMap<K, V, S>(OrderMap<K, V, S>);

/// The entries of an argument table, in order.
pub uninterp spec fn table_entries(m: OrderMap<String, InputValue>) -> Seq<(Seq<char>, InVal)>;

/// An argument declared by a field of the schema.
#[derive(Debug)]
pub struct Argument {
    pub name: String,
    pub default_value: Option<InputValue>,
}

/// The model of a declared argument: its name and its default.
pub open spec fn decl_view(a: Argument) -> (Seq<char>, Option<InVal>) {
    (
        a.name@,
        match a.default_value {
            Some(v) => Some(v@),
            None => None,
        },
    )
}

/// The models of a list of declared arguments.
pub open spec fn decls_view(d: Seq<Argument>) -> Seq<(Seq<char>, Option<InVal>)> {
    Seq::new(d.len(), |i: int| decl_view(d[i]))
}

/// Writes `v` under the first occurrence of `k`, or appends it.
pub open spec fn set_name(m: Seq<(Seq<char>, InVal)>, k: Seq<char>, v: InVal) -> Seq<(Seq<char>, InVal)> {
    if has_name(m, k) {
        m.update(choose|i: int| first_named(m, k, i), (k, v))
    } else {
        m.push((k, v))
    }
}

/// The value a declared argument takes when the caller gives none: its
/// default, or null.
pub open spec fn default_of(d: (Seq<char>, Option<InVal>)) -> InVal {
    match d.1 {
        Some(v) => v,
        None => InVal::Null,
    }
}

/// Completes `m` with declaration `d`: an argument that is absent or null
/// takes its default, or null.
pub open spec fn fill_one(m: Seq<(Seq<char>, InVal)>, d: (Seq<char>, Option<InVal>)) -> Seq<(Seq<char>, InVal)> {
    if !has_name(m, d.0) || lookup(m, d.0) == Some(InVal::Null) {
        set_name(m, d.0, default_of(d))
    } else {
        m
    }
}

/// Completes `m` with every declaration of `ds`, in order.
pub open spec fn fill_all(m: Seq<(Seq<char>, InVal)>, ds: Seq<(Seq<char>, Option<InVal>)>) -> Seq<(Seq<char>, InVal)>
    decreases ds.len(),
{
    if ds.len() == 0 {
        m
    } else {
        fill_one(fill_all(m, ds.drop_last()), ds.last())
    }
}

/// The table built from the caller's arguments `given` and the field's
/// declarations `decls`.
pub open spec fn coerced(
    given: Option<Seq<(Seq<char>, InVal)>>,
    decls: Option<Seq<(Seq<char>, Option<InVal>)>>,
) -> Option<Seq<(Seq<char>, InVal)>> {
    match decls {
        Some(ds) => Some(
            fill_all(
                match given {
                    Some(g) => g,
                    None => Seq::empty(),
                },
                ds,
            ),
        ),
        None => given,
    }
}

/// The names of `ds` are pairwise distinct.
pub open spec fn decl_names_unique(ds: Seq<(Seq<char>, Option<InVal>)>) -> bool {
    forall|i: int, j: int| 0 <= i < j < ds.len() ==> ds[i].0 != ds[j].0
}

/// The model of an optional argument table.
pub open spec fn opt_table_view(a: Option<OrderMap<String, InputValue>>) -> Option<Seq<(Seq<char>, InVal)>> {
    match a {
        Some(m) => Some(table_entries(m)),
        None => None,
    }
}

/// The table built by writing the entries of `s` in turn.
pub open spec fn table_of(s: Seq<(Seq<char>, InVal)>) -> Seq<(Seq<char>, InVal)>
    decreases s.len(),
{
    if s.len() == 0 {
        Seq::empty()
    } else {
        set_name(table_of(s.drop_last()), s.last().0, s.last().1)
    }
}

/// The model of optional argument declarations.
pub open spec fn opt_decls_view(a: Option<Vec<Argument>>) -> Option<Seq<(Seq<char>, Option<InVal>)>> {
    match a {
        Some(v) => Some(decls_view(v@)),
        None => None,
    }
}

/// Relies on `OrderMap::new`: a new table is empty.
#[verifier::external_body]
pub(crate) fn table_new() -> (r: OrderMap<String, InputValue>)
    ensures
        table_entries(r) == Seq::<(Seq<char>, InVal)>::empty(),
{
    OrderMap::new()
}

/// Relies on `OrderMap::insert`: a name already present keeps its place and
/// takes the new value; a new name goes last.
#[verifier::external_body]
pub(crate) fn table_insert(m: &mut OrderMap<String, InputValue>, k: String, v: InputValue)
    ensures
        table_entries(*final(m)) == set_name(table_entries(*old(m)), k@, v@),
{
    m.insert(k, v);
}

/// Relies on `OrderMap::get`: the value stored under the name, if any.
#[verifier::external_body]
fn table_get<'a>(m: &'a OrderMap<String, InputValue>, k: &str) -> (r: Option<&'a InputValue>)
    ensures
        match r {
            Some(v) => lookup(table_entries(*m), k@) == Some(v@),
            None => lookup(table_entries(*m), k@) is None,
        },
{
    m.get(k)
}

/// The arguments of one field invocation.
pub struct Arguments {
    args: Option<OrderMap<String, InputValue>>,
}

impl View for Arguments {
    type V = Option<Seq<(Seq<char>, InVal)>>;

    closed spec fn view(&self) -> Option<Seq<(Seq<char>, InVal)>> {
        opt_table_view(self.args)
    }
}

impl Arguments {
    /// Builds the table: where the field declares arguments, every
    /// declared argument that the caller left out or gave as null takes its
    /// default, or null where it has none.
    pub fn new(args: Option<OrderMap<String, InputValue>>, meta_args: &Option<Vec<Argument>>) -> (r:
        Arguments)
        ensures
            r@ == coerced(opt_table_view(args), opt_decls_view(*meta_args)),
    {
        match meta_args {
            None => Arguments { args },
            Some(decls) => {
                let mut table: OrderMap<String, InputValue> = match args {
                    Some(a) => a,
                    None => table_new(),
                };
                let ghost m0 = table_entries(table);
                let ghost ds = decls_view(decls@);
                proof {
                    assert(m0 == match opt_table_view(args) {
                        Some(g) => g,
                        None => Seq::empty(),
                    }) by {
                        if args is None {
                            assert(m0 =~= Seq::empty());
                        }
                    }
                }
                let mut i: usize = 0;
                while i < decls.len()
                    invariant
                        i <= decls.len(),
                        ds == decls_view(decls@),
                        table_entries(table) == fill_all(m0, ds.subrange(0, i as int)),
                    decreases decls.len() - i,
                {
                    let arg = &decls[i];
                    let present = table_get(&table, arg.name.as_str());
                    let missing = match present {
                        Some(v) => v.is_null(),
                        None => true,
                    };
                    if missing {
                        let v = match &arg.default_value {
                            Some(d) => d.deep_clone(),
                            None => InputValue::null(),
                        };
                        table_insert(&mut table, arg.name.clone(), v);
                    }
                    proof {
                        assert(ds[i as int] == decl_view(*arg));
                        assert(ds.subrange(0, i + 1).drop_last() =~= ds.subrange(0, i as int));
                    }
                    i += 1;
                }
                proof {
                    assert(ds.subrange(0, decls.len() as int) =~= ds);
                }
                Arguments { args: Some(table) }
            },
        }
    }

    /// The argument under `key`, converted to `T`: nothing when the key is
    /// absent or the value does not convert.
    pub fn get<T: FromInputValue>(&self, key: &str) -> (r: Option<T>)
        ensures
            match self@ {
                Some(m) => match lookup(m, key@) {
                    Some(v) => (r is Some == T::converts(v)) && (r matches Some(x) ==> T::converted(
                        v,
                        x,
                    )),
                    None => r is None,
                },
                None => r is None,
            },
    {
        match &self.args {
            Some(args) => match table_get(args, key) {
                Some(v) => T::from_input_value(v),
                None => None,
            },
            None => None,
        }
    }
}

/// Without arguments from the caller, the table holds exactly the declared
/// arguments, in order, each bound to its default or to null.
pub proof fn lemma_defaults_only(ds: Seq<(Seq<char>, Option<InVal>)>)
    requires
        decl_names_unique(ds),
    ensures
        coerced(None, Some(ds)) == Some(Seq::new(ds.len(), |i: int| (ds[i].0, default_of(ds[i])))),
    decreases ds.len(),
{
    let expected = Seq::new(ds.len(), |i: int| (ds[i].0, default_of(ds[i])));
    if ds.len() == 0 {
        assert(fill_all(Seq::empty(), ds) =~= expected);
    } else {
        let init = ds.drop_last();
        assert(decl_names_unique(init));
        lemma_defaults_only(init);
        let prev = fill_all(Seq::empty(), init);
        assert(prev =~= Seq::new(init.len(), |i: int| (init[i].0, default_of(init[i]))));
        let last = ds.last();
        assert(!has_name(prev, last.0)) by {
            if has_name(prev, last.0) {
                let i = choose|i: int| first_named(prev, last.0, i);
                assert(ds[i].0 == prev[i].0);
            }
        }
        assert(fill_all(Seq::empty(), ds) =~= expected);
    }
}

} // verus!
