//! Input values of a query, variable substitution, directives and the
//! conversion of input values into typed values.
use vstd::prelude::*;

verus! {

/// Mathematical model of an input value.
pub enum InVal {
    Null,
    Int(i64),
    Str(Seq<char>),
    Boolean(bool),
    Variable(Seq<char>),
    List(Seq<InVal>),
}

/// A value written in a query or bound to a variable.
#[derive(Debug)]
pub enum InputValue {
    Null,
    Int(i64),
    String(String),
    Boolean(bool),
    Variable(String),
    List(Vec<InputValue>),
}

impl View for InputValue {
    type V = InVal;

    open spec fn view(&self) -> InVal {
        input_view(*self)
    }
}

/// The model of an input value.
pub open spec fn input_view(v: InputValue) -> InVal
    decreases v,
{
    match v {
        InputValue::Null => InVal::Null,
        InputValue::Int(n) => InVal::Int(n),
        InputValue::String(s) => InVal::Str(s@),
        InputValue::Boolean(b) => InVal::Boolean(b),
        InputValue::Variable(s) => InVal::Variable(s@),
        InputValue::List(items) => InVal::List(
            Seq::new(
                items.len() as nat,
                |i: int|
                    if 0 <= i < items.len() {
                        input_view(items[i])
                    } else {
                        InVal::Null
                    },
            ),
        ),
    }
}

/// The models of a sequence of input values.
pub open spec fn inputs_view(f: Seq<InputValue>) -> Seq<InVal> {
    Seq::new(f.len(), |i: int| f[i]@)
}

/// The model of a table of named input values.
pub open spec fn entries_view(f: Seq<(String, InputValue)>) -> Seq<(Seq<char>, InVal)> {
    Seq::new(f.len(), |i: int| (f[i].0@, f[i].1@))
}

pub proof fn lemma_input_list_view(f: Vec<InputValue>)
    ensures
        InputValue::List(f)@ == InVal::List(inputs_view(f@)),
{
    let m = InputValue::List(f)@->List_0;
    assert(m =~= inputs_view(f@));
}

/// `i` is the first position of name `k` in `m`.
pub open spec fn first_named<V>(m: Seq<(Seq<char>, V)>, k: Seq<char>, i: int) -> bool {
    &&& 0 <= i < m.len()
    &&& m[i].0 == k
    &&& forall|j: int| 0 <= j < i ==> m[j].0 != k
}

/// Whether name `k` occurs in `m`.
pub open spec fn has_name<V>(m: Seq<(Seq<char>, V)>, k: Seq<char>) -> bool {
    exists|i: int| first_named(m, k, i)
}

/// The value under the first occurrence of `k` in `m`, if any.
pub open spec fn lookup<V>(m: Seq<(Seq<char>, V)>, k: Seq<char>) -> Option<V> {
    if has_name(m, k) {
        Some(m[choose|i: int| first_named(m, k, i)].1)
    } else {
        None
    }
}

/// The value with every variable replaced by its binding in `vars`, or by
/// null where it has none.
pub open spec fn const_of(v: InVal, vars: Seq<(Seq<char>, InVal)>) -> InVal
    decreases v,
{
    match v {
        InVal::Variable(name) => match lookup(vars, name) {
            Some(b) => b,
            None => InVal::Null,
        },
        InVal::List(items) => InVal::List(
            Seq::new(
                items.len(),
                |i: int|
                    if 0 <= i < items.len() {
                        const_of(items[i], vars)
                    } else {
                        InVal::Null
                    },
            ),
        ),
        _ => v,
    }
}

/// Finds the first position of `k` among the names of `m`.
pub fn find_name(m: &Vec<(String, InputValue)>, k: &String) -> (r: Option<usize>)
    ensures
        match r {
            Some(i) => i < m.len() && first_named(entries_view(m@), k@, i as int),
            None => !has_name(entries_view(m@), k@),
        },
        r is Some ==> lookup(entries_view(m@), k@) == Some(m@[r->0 as int].1@),
        r is None ==> lookup(entries_view(m@), k@) == None::<InVal>,
{
    let ghost fm = entries_view(m@);
    let mut i: usize = 0;
    while i < m.len()
        invariant
            i <= m.len(),
            fm == entries_view(m@),
            forall|j: int| 0 <= j < i ==> fm[j].0 != k@,
        decreases m.len() - i,
    {
        if m[i].0 == *k {
            proof {
                assert(first_named(fm, k@, i as int));
                assert forall|j: int| first_named(fm, k@, j) implies j == i by {
                    if j > i {
                        assert(fm[i as int].0 == k@);
                    }
                }
            }
            return Some(i);
        }
        i += 1;
    }
    proof {
        assert forall|j: int| !first_named(fm, k@, j) by {
            if 0 <= j < fm.len() {
                assert(fm[j].0 != k@);
            }
        }
    }
    None
}

impl InputValue {
    /// An explicit null.
    pub fn null() -> (r: InputValue)
        ensures
            r@ == InVal::Null,
    {
        InputValue::Null
    }

    /// Whether this is the null value.
    pub fn is_null(&self) -> (r: bool)
        ensures
            r == (self@ == InVal::Null),
    {
        match self {
            InputValue::Null => true,
            _ => false,
        }
    }

    /// A copy of this value.
    pub fn deep_clone(&self) -> (r: InputValue)
        ensures
            r@ == self@,
        decreases self@,
    {
        match self {
            InputValue::Null => InputValue::Null,
            InputValue::Int(n) => InputValue::Int(*n),
            InputValue::String(s) => InputValue::String(s.clone()),
            InputValue::Boolean(b) => InputValue::Boolean(*b),
            InputValue::Variable(s) => InputValue::Variable(s.clone()),
            InputValue::List(items) => {
                proof {
                    lemma_input_list_view(*items);
                }
                let mut out: Vec<InputValue> = Vec::new();
                let mut i: usize = 0;
                while i < items.len()
                    invariant
                        i <= items.len(),
                        out.len() == i,
                        self@ == InVal::List(inputs_view(items@)),
                        forall|j: int| 0 <= j < i ==> out@[j]@ == items@[j]@,
                    decreases items.len() - i,
                {
                    proof {
                        assert(decreases_to!(self@ => self@->List_0));
                        assert(inputs_view(items@)[i as int] == items@[i as int]@);
                    }
                    let c = items[i].deep_clone();
                    out.push(c);
                    i += 1;
                }
                proof {
                    lemma_input_list_view(out);
                    assert(inputs_view(out@) =~= inputs_view(items@));
                }
                InputValue::List(out)
            },
        }
    }

    /// This value with its variables replaced by their bindings in `vars`
    /// (null where a variable is unbound).
    pub fn into_const(&self, vars: &Vec<(String, InputValue)>) -> (r: InputValue)
        ensures
            r@ == const_of(self@, entries_view(vars@)),
        decreases self@,
    {
        match self {
            InputValue::Variable(name) => match find_name(vars, name) {
                Some(i) => vars[i].1.deep_clone(),
                None => InputValue::Null,
            },
            InputValue::List(items) => {
                proof {
                    lemma_input_list_view(*items);
                }
                let ghost ev = entries_view(vars@);
                let mut out: Vec<InputValue> = Vec::new();
                let mut i: usize = 0;
                while i < items.len()
                    invariant
                        i <= items.len(),
                        out.len() == i,
                        ev == entries_view(vars@),
                        self@ == InVal::List(inputs_view(items@)),
                        forall|j: int| 0 <= j < i ==> out@[j]@ == const_of(items@[j]@, ev),
                    decreases items.len() - i,
                {
                    proof {
                        assert(decreases_to!(self@ => self@->List_0));
                        assert(inputs_view(items@)[i as int] == items@[i as int]@);
                    }
                    let c = items[i].into_const(vars);
                    out.push(c);
                    i += 1;
                }
                proof {
                    lemma_input_list_view(out);
                    assert(inputs_view(out@) =~= const_of(self@, ev)->List_0);
                }
                InputValue::List(out)
            },
            _ => self.deep_clone(),
        }
    }
}

} // verus!
