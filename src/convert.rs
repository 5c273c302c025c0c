//! Conversion between input values and typed values, with the impls for
//! the optional and the list adapters.
use vstd::prelude::*;
use crate::input::{inputs_view, lemma_input_list_view, InVal, InputValue};

verus! {

/// A type whose values can be read from an input value.
pub trait FromInputValue: Sized {
    /// `v` converts to a value of this type.
    spec fn converts(v: InVal) -> bool;

    /// `r` is the value that `v` converts to.
    spec fn converted(v: InVal, r: Self) -> bool;

    fn from_input_value(v: &InputValue) -> (r: Option<Self>)
        ensures
            r is Some == Self::converts(v@),
            r matches Some(x) ==> Self::converted(v@, x),
    ;
}

/// A type whose values can be written as an input value.
pub trait ToInputValue: Sized {
    /// The input value that `self` is written as.
    spec fn input_of(&self) -> InVal;

    fn to_input_value(&self) -> (r: InputValue)
        ensures
            r@ == self.input_of(),
    ;
}

impl FromInputValue for bool {
    open spec fn converts(v: InVal) -> bool {
        v is Boolean
    }

    open spec fn converted(v: InVal, r: bool) -> bool {
        v == InVal::Boolean(r)
    }

    fn from_input_value(v: &InputValue) -> (r: Option<bool>) {
        match v {
            InputValue::Boolean(b) => Some(*b),
            _ => None,
        }
    }
}

impl FromInputValue for i64 {
    open spec fn converts(v: InVal) -> bool {
        v is Int
    }

    open spec fn converted(v: InVal, r: i64) -> bool {
        v == InVal::Int(r)
    }

    fn from_input_value(v: &InputValue) -> (r: Option<i64>) {
        match v {
            InputValue::Int(n) => Some(*n),
            _ => None,
        }
    }
}

impl FromInputValue for String {
    open spec fn converts(v: InVal) -> bool {
        v is Str
    }

    open spec fn converted(v: InVal, r: String) -> bool {
        v == InVal::Str(r@)
    }

    fn from_input_value(v: &InputValue) -> (r: Option<String>) {
        match v {
            InputValue::String(s) => Some(s.clone()),
            _ => None,
        }
    }
}

impl ToInputValue for bool {
    open spec fn input_of(&self) -> InVal {
        InVal::Boolean(*self)
    }

    fn to_input_value(&self) -> (r: InputValue) {
        InputValue::Boolean(*self)
    }
}

impl ToInputValue for i64 {
    open spec fn input_of(&self) -> InVal {
        InVal::Int(*self)
    }

    fn to_input_value(&self) -> (r: InputValue) {
        InputValue::Int(*self)
    }
}

impl ToInputValue for String {
    open spec fn input_of(&self) -> InVal {
        InVal::Str(self@)
    }

    fn to_input_value(&self) -> (r: InputValue) {
        InputValue::String(self.clone())
    }
}

/// Null reads as an absent value; anything else as a present one.
impl<T: FromInputValue> FromInputValue for Option<T> {
    open spec fn converts(v: InVal) -> bool {
        v == InVal::Null || T::converts(v)
    }

    open spec fn converted(v: InVal, r: Option<T>) -> bool {
        if v == InVal::Null {
            r is None
        } else {
            r matches Some(x) && T::converted(v, x)
        }
    }

    fn from_input_value(v: &InputValue) -> (r: Option<Option<T>>) {
        match v {
            InputValue::Null => Some(None),
            _ => match T::from_input_value(v) {
                Some(x) => Some(Some(x)),
                None => None,
            },
        }
    }
}

/// An absent value is written as null.
impl<T: ToInputValue> ToInputValue for Option<T> {
    open spec fn input_of(&self) -> InVal {
        match self {
            Some(x) => x.input_of(),
            None => InVal::Null,
        }
    }

    fn to_input_value(&self) -> (r: InputValue) {
        match self {
            Some(x) => x.to_input_value(),
            None => InputValue::null(),
        }
    }
}

/// A list converts when each of its items does; any other value converts
/// as a list of one item.
impl<T: FromInputValue> FromInputValue for Vec<T> {
    open spec fn converts(v: InVal) -> bool {
        match v {
            InVal::List(items) => forall|i: int| 0 <= i < items.len() ==> #[trigger] T::converts(items[i]),
            _ => T::converts(v),
        }
    }

    open spec fn converted(v: InVal, r: Vec<T>) -> bool {
        match v {
            InVal::List(items) => r.len() == items.len() && forall|i: int|
                0 <= i < items.len() ==> T::converted(#[trigger] items[i], r@[i]),
            _ => r.len() == 1 && T::converted(v, r@[0]),
        }
    }

    fn from_input_value(v: &InputValue) -> (r: Option<Vec<T>>) {
        match v {
            InputValue::List(ls) => {
                proof {
                    lemma_input_list_view(*ls);
                }
                let mut out: Vec<T> = Vec::new();
                let mut i: usize = 0;
                while i < ls.len()
                    invariant
                        i <= ls.len(),
                        out.len() == i,
                        v@ == InVal::List(inputs_view(ls@)),
                        forall|j: int| 0 <= j < i ==> T::converts(inputs_view(ls@)[j]),
                        forall|j: int| 0 <= j < i ==> T::converted(inputs_view(ls@)[j], out@[j]),
                    decreases ls.len() - i,
                {
                    assert(inputs_view(ls@)[i as int] == ls@[i as int]@);
                    match T::from_input_value(&ls[i]) {
                        Some(x) => out.push(x),
                        None => {
                            let ghost items = inputs_view(ls@);
                            assert(items.len() == ls.len());
                            assert(!T::converts(items[i as int]));
                            assert(!(forall|j: int|
                                0 <= j < items.len() ==> T::converts(#[trigger] items[j])));
                            assert(v@ == InVal::List(items));
                            proof {
                                let w = InVal::List(items);
                                assert(w->List_0 == items);
                                if <Vec<T> as FromInputValue>::converts(w) {
                                    assert(forall|j: int| 0 <= j < items.len() ==> #[trigger] T::converts(items[j]));
                                    assert(T::converts(items[i as int]));
                                }
                            }
                            return None;
                        },
                    }
                    i += 1;
                }
                Some(out)
            },
            _ => match T::from_input_value(v) {
                Some(e) => {
                    let mut out: Vec<T> = Vec::new();
                    out.push(e);
                    Some(out)
                },
                None => None,
            },
        }
    }
}

/// A sequence is written as a list of its items, in order.
impl<T: ToInputValue> ToInputValue for Vec<T> {
    open spec fn input_of(&self) -> InVal {
        InVal::List(Seq::new(self@.len(), |i: int| self@[i].input_of()))
    }

    fn to_input_value(&self) -> (r: InputValue) {
        let mut out: Vec<InputValue> = Vec::new();
        let mut i: usize = 0;
        while i < self.len()
            invariant
                i <= self.len(),
                out.len() == i,
                forall|j: int| 0 <= j < i ==> out@[j]@ == self@[j].input_of(),
            decreases self.len() - i,
        {
            out.push(self[i].to_input_value());
            i += 1;
        }
        proof {
            lemma_input_list_view(out);
            assert(inputs_view(out@) =~= Seq::new(self@.len(), |i: int| self@[i].input_of()));
        }
        InputValue::List(out)
    }
}

/// A borrowed slice is written as a list of its items, in order.
impl<'a, T: ToInputValue> ToInputValue for &'a [T] {
    open spec fn input_of(&self) -> InVal {
        InVal::List(Seq::new(self@.len(), |i: int| self@[i].input_of()))
    }

    fn to_input_value(&self) -> (r: InputValue) {
        let mut out: Vec<InputValue> = Vec::new();
        let mut i: usize = 0;
        while i < self.len()
            invariant
                i <= self.len(),
                out.len() == i,
                forall|j: int| 0 <= j < i ==> out@[j]@ == self@[j].input_of(),
            decreases self.len() - i,
        {
            out.push(self[i].to_input_value());
            i += 1;
        }
        proof {
            lemma_input_list_view(out);
            assert(inputs_view(out@) =~= Seq::new(self@.len(), |i: int| self@[i].input_of()));
        }
        InputValue::List(out)
    }
}

} // verus!
