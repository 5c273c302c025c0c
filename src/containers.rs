//! The optional and the list adapters: wrapper types without a name of
//! their own, which resolve through the type they wrap.
use vstd::prelude::*;
use crate::arguments::Arguments;
use crate::input::InVal;
use crate::resolve::{errors_view, opt_sel_refs, outcome_view, ExecutionError, ExecutionResult, FieldError, GraphQLType, Outcome};
use crate::schema::{ExecContext, Selection};
use crate::value::{items_view, lemma_list_view, Val, Value};

verus! {

/// The message a wrapper type answers a field request with.
pub open spec fn no_fields_message() -> Seq<char> {
    "wrapper types have no fields"@
}

/// The message a wrapper type answers a narrowing request with.
pub open spec fn no_narrowing_message() -> Seq<char> {
    "wrapper types cannot be narrowed"@
}

/// Resolving the items of `items` in order; the first failure is the
/// outcome of the whole list.
pub open spec fn list_outcome<T: GraphQLType>(items: Seq<T>, sel: Option<Seq<Selection>>, ctx: ExecContext) -> Outcome
    decreases items.len(),
{
    if items.len() == 0 {
        (Ok(Val::List(Seq::empty())), Seq::empty())
    } else {
        let prev = list_outcome(items.drop_last(), sel, ctx);
        match prev.0 {
            Ok(v) => {
                let o = items.last().resolved_outcome(sel, ctx);
                match o.0 {
                    Ok(x) => (Ok(Val::List(v->List_0.push(x))), prev.1 + o.1),
                    Err(m) => (Err(m), prev.1 + o.1),
                }
            },
            Err(m) => prev,
        }
    }
}

/// Wrapper types have no name, so the methods that are asked of named types
/// only are never called on them; these two answers stand in their bodies.
fn no_fields() -> (r: ExecutionResult)
    ensures
        outcome_view(r) == Err::<Val, Seq<char>>(no_fields_message()),
{
    Err(FieldError { message: "wrapper types have no fields".to_owned() })
}

fn no_narrowing() -> (r: ExecutionResult)
    ensures
        outcome_view(r) == Err::<Val, Seq<char>>(no_narrowing_message()),
{
    Err(FieldError { message: "wrapper types cannot be narrowed".to_owned() })
}

/// An absent value resolves to null; a present one as the wrapped type.
impl<T: GraphQLType> GraphQLType for Option<T> {
    open spec fn schema_name() -> Option<Seq<char>> {
        None
    }

    open spec fn field_outcome(
        &self,
        field: Seq<char>,
        args: Option<Seq<(Seq<char>, InVal)>>,
        sel: Option<Seq<Selection>>,
        ctx: ExecContext,
    ) -> Outcome {
        (Err(no_fields_message()), Seq::empty())
    }

    open spec fn concrete_name(&self) -> Seq<char> {
        Seq::empty()
    }

    open spec fn narrowed_outcome(&self, target: Seq<char>, sel: Seq<Selection>, ctx: ExecContext) -> Outcome {
        (Err(no_narrowing_message()), Seq::empty())
    }

    open spec fn resolved_outcome(&self, sel: Option<Seq<Selection>>, ctx: ExecContext) -> Outcome {
        match self {
            Some(x) => x.resolved_outcome(sel, ctx),
            None => (Ok(Val::Null), Seq::empty()),
        }
    }

    fn name() -> (r: Option<String>) {
        None
    }

    fn resolve_field(
        &self,
        field_name: &String,
        arguments: &Arguments,
        selection_set: &Option<Vec<Selection>>,
        ctx: &ExecContext,
        errors: &mut Vec<ExecutionError>,
    ) -> (r: ExecutionResult) {
        proof {
            assert(errors_view(old(errors)@) + Seq::empty() =~= errors_view(errors@));
        }
        no_fields()
    }

    fn concrete_type_name(&self) -> (r: String) {
        String::new()
    }

    fn resolve_into_type(
        &self,
        target: &String,
        selection_set: &Vec<Selection>,
        ctx: &ExecContext,
        errors: &mut Vec<ExecutionError>,
    ) -> (r: ExecutionResult) {
        proof {
            assert(errors_view(old(errors)@) + Seq::empty() =~= errors_view(errors@));
        }
        no_narrowing()
    }

    fn resolve(
        &self,
        selection_set: Option<&Vec<Selection>>,
        ctx: &ExecContext,
        errors: &mut Vec<ExecutionError>,
    ) -> (r: ExecutionResult) {
        match self {
            Some(x) => x.resolve(selection_set, ctx, errors),
            None => {
                proof {
                    assert(errors_view(old(errors)@) + Seq::empty() =~= errors_view(errors@));
                }
                Ok(Value::Null)
            },
        }
    }
}

/// Each item resolves as the wrapped type, in order; a failing item fails
/// the list.
impl<T: GraphQLType> GraphQLType for Vec<T> {
    open spec fn schema_name() -> Option<Seq<char>> {
        None
    }

    open spec fn field_outcome(
        &self,
        field: Seq<char>,
        args: Option<Seq<(Seq<char>, InVal)>>,
        sel: Option<Seq<Selection>>,
        ctx: ExecContext,
    ) -> Outcome {
        (Err(no_fields_message()), Seq::empty())
    }

    open spec fn concrete_name(&self) -> Seq<char> {
        Seq::empty()
    }

    open spec fn narrowed_outcome(&self, target: Seq<char>, sel: Seq<Selection>, ctx: ExecContext) -> Outcome {
        (Err(no_narrowing_message()), Seq::empty())
    }

    open spec fn resolved_outcome(&self, sel: Option<Seq<Selection>>, ctx: ExecContext) -> Outcome {
        list_outcome(self@, sel, ctx)
    }

    fn name() -> (r: Option<String>) {
        None
    }

    fn resolve_field(
        &self,
        field_name: &String,
        arguments: &Arguments,
        selection_set: &Option<Vec<Selection>>,
        ctx: &ExecContext,
        errors: &mut Vec<ExecutionError>,
    ) -> (r: ExecutionResult) {
        proof {
            assert(errors_view(old(errors)@) + Seq::empty() =~= errors_view(errors@));
        }
        no_fields()
    }

    fn concrete_type_name(&self) -> (r: String) {
        String::new()
    }

    fn resolve_into_type(
        &self,
        target: &String,
        selection_set: &Vec<Selection>,
        ctx: &ExecContext,
        errors: &mut Vec<ExecutionError>,
    ) -> (r: ExecutionResult) {
        proof {
            assert(errors_view(old(errors)@) + Seq::empty() =~= errors_view(errors@));
        }
        no_narrowing()
    }

    fn resolve(
        &self,
        selection_set: Option<&Vec<Selection>>,
        ctx: &ExecContext,
        errors: &mut Vec<ExecutionError>,
    ) -> (r: ExecutionResult) {
        let ghost sel = opt_sel_refs(selection_set);
        let ghost e0 = errors_view(errors@);
        let ghost s = self@;
        let mut out: Vec<Value> = Vec::new();
        let mut i: usize = 0;
        proof {
            assert(s.subrange(0, 0) =~= Seq::<T>::empty());
            assert(items_view(out@) =~= Seq::empty());
            assert(e0 + Seq::empty() =~= e0);
        }
        while i < self.len()
            invariant
                i <= s.len(),
                s == self@,
                sel == opt_sel_refs(selection_set),
                e0 == errors_view(old(errors)@),
                list_outcome(s.subrange(0, i as int), sel, *ctx).0 == Ok::<Val, Seq<char>>(
                    Val::List(items_view(out@)),
                ),
                errors_view(errors@) == e0 + list_outcome(s.subrange(0, i as int), sel, *ctx).1,
            decreases s.len() - i,
        {
            let ghost eb = errors_view(errors@);
            let ghost prev = list_outcome(s.subrange(0, i as int), sel, *ctx);
            proof {
                assert(s.subrange(0, i + 1).drop_last() =~= s.subrange(0, i as int));
                assert(s.subrange(0, i + 1).last() == s[i as int]);
            }
            let item = self[i].resolve(selection_set, ctx, errors);
            match item {
                Ok(v) => {
                    let ghost vv = v@;
                    out.push(v);
                    proof {
                        assert(items_view(out@) =~= prev.0->Ok_0->List_0.push(vv));
                        assert(errors_view(errors@) =~= e0 + list_outcome(
                            s.subrange(0, i + 1),
                            sel,
                            *ctx,
                        ).1);
                    }
                },
                Err(e) => {
                    proof {
                        lemma_list_failure_sticks(s, sel, *ctx, i + 1);
                        assert(errors_view(errors@) =~= e0 + list_outcome(s, sel, *ctx).1);
                    }
                    return Err(e);
                },
            }
            i += 1;
        }
        proof {
            assert(s.subrange(0, s.len() as int) =~= s);
            lemma_list_view(out);
        }
        Ok(Value::List(out))
    }
}

/// A borrowed slice resolves as a list, like an owned sequence.
impl<'a, T: GraphQLType> GraphQLType for &'a [T] {
    open spec fn schema_name() -> Option<Seq<char>> {
        None
    }

    open spec fn field_outcome(
        &self,
        field: Seq<char>,
        args: Option<Seq<(Seq<char>, InVal)>>,
        sel: Option<Seq<Selection>>,
        ctx: ExecContext,
    ) -> Outcome {
        (Err(no_fields_message()), Seq::empty())
    }

    open spec fn concrete_name(&self) -> Seq<char> {
        Seq::empty()
    }

    open spec fn narrowed_outcome(&self, target: Seq<char>, sel: Seq<Selection>, ctx: ExecContext) -> Outcome {
        (Err(no_narrowing_message()), Seq::empty())
    }

    open spec fn resolved_outcome(&self, sel: Option<Seq<Selection>>, ctx: ExecContext) -> Outcome {
        list_outcome(self@, sel, ctx)
    }

    fn name() -> (r: Option<String>) {
        None
    }

    fn resolve_field(
        &self,
        field_name: &String,
        arguments: &Arguments,
        selection_set: &Option<Vec<Selection>>,
        ctx: &ExecContext,
        errors: &mut Vec<ExecutionError>,
    ) -> (r: ExecutionResult) {
        proof {
            assert(errors_view(old(errors)@) + Seq::empty() =~= errors_view(errors@));
        }
        no_fields()
    }

    fn concrete_type_name(&self) -> (r: String) {
        String::new()
    }

    fn resolve_into_type(
        &self,
        target: &String,
        selection_set: &Vec<Selection>,
        ctx: &ExecContext,
        errors: &mut Vec<ExecutionError>,
    ) -> (r: ExecutionResult) {
        proof {
            assert(errors_view(old(errors)@) + Seq::empty() =~= errors_view(errors@));
        }
        no_narrowing()
    }

    fn resolve(
        &self,
        selection_set: Option<&Vec<Selection>>,
        ctx: &ExecContext,
        errors: &mut Vec<ExecutionError>,
    ) -> (r: ExecutionResult) {
        let ghost sel = opt_sel_refs(selection_set);
        let ghost e0 = errors_view(errors@);
        let ghost s = self@;
        let mut out: Vec<Value> = Vec::new();
        let mut i: usize = 0;
        proof {
            assert(s.subrange(0, 0) =~= Seq::<T>::empty());
            assert(items_view(out@) =~= Seq::empty());
            assert(e0 + Seq::empty() =~= e0);
        }
        while i < self.len()
            invariant
                i <= s.len(),
                s == self@,
                sel == opt_sel_refs(selection_set),
                e0 == errors_view(old(errors)@),
                list_outcome(s.subrange(0, i as int), sel, *ctx).0 == Ok::<Val, Seq<char>>(
                    Val::List(items_view(out@)),
                ),
                errors_view(errors@) == e0 + list_outcome(s.subrange(0, i as int), sel, *ctx).1,
            decreases s.len() - i,
        {
            let ghost eb = errors_view(errors@);
            let ghost prev = list_outcome(s.subrange(0, i as int), sel, *ctx);
            proof {
                assert(s.subrange(0, i + 1).drop_last() =~= s.subrange(0, i as int));
                assert(s.subrange(0, i + 1).last() == s[i as int]);
            }
            let item = self[i].resolve(selection_set, ctx, errors);
            match item {
                Ok(v) => {
                    let ghost vv = v@;
                    out.push(v);
                    proof {
                        assert(items_view(out@) =~= prev.0->Ok_0->List_0.push(vv));
                        assert(errors_view(errors@) =~= e0 + list_outcome(
                            s.subrange(0, i + 1),
                            sel,
                            *ctx,
                        ).1);
                    }
                },
                Err(e) => {
                    proof {
                        lemma_list_failure_sticks(s, sel, *ctx, i + 1);
                        assert(errors_view(errors@) =~= e0 + list_outcome(s, sel, *ctx).1);
                    }
                    return Err(e);
                },
            }
            i += 1;
        }
        proof {
            assert(s.subrange(0, s.len() as int) =~= s);
            lemma_list_view(out);
        }
        Ok(Value::List(out))
    }
}

/// Once an item has failed, later items change nothing.
pub proof fn lemma_list_failure_sticks<T: GraphQLType>(
    items: Seq<T>,
    sel: Option<Seq<Selection>>,
    ctx: ExecContext,
    k: int,
)
    requires
        0 <= k <= items.len(),
        list_outcome(items.subrange(0, k), sel, ctx).0 is Err,
    ensures
        list_outcome(items, sel, ctx) == list_outcome(items.subrange(0, k), sel, ctx),
    decreases items.len(),
{
    if k < items.len() {
        assert(items.drop_last().subrange(0, k) =~= items.subrange(0, k));
        lemma_list_failure_sticks(items.drop_last(), sel, ctx, k);
    } else {
        assert(items.subrange(0, k) =~= items);
    }
}

/// An absent optional value resolves to null and records no error.
pub proof fn lemma_absent_is_null<T: GraphQLType>(sel: Option<Seq<Selection>>, ctx: ExecContext)
    ensures
        None::<T>.resolved_outcome(sel, ctx) == (
            Ok::<Val, Seq<char>>(Val::Null),
            Seq::<(Seq<char>, crate::schema::SourcePosition)>::empty(),
        ),
{
}

/// When every item before position `k` resolves and the item at `k`
/// fails, the list fails with that item's error, and the errors recorded
/// are those of the items up to `k`, none after.
pub proof fn lemma_failing_item_fails_list<T: GraphQLType>(
    items: Seq<T>,
    sel: Option<Seq<Selection>>,
    ctx: ExecContext,
    k: int,
    m: Seq<char>,
)
    requires
        0 <= k < items.len(),
        list_outcome(items.subrange(0, k), sel, ctx).0 is Ok,
        items[k].resolved_outcome(sel, ctx).0 == Err::<Val, Seq<char>>(m),
    ensures
        list_outcome(items, sel, ctx).0 == Err::<Val, Seq<char>>(m),
        list_outcome(items, sel, ctx).1 == list_outcome(items.subrange(0, k), sel, ctx).1
            + items[k].resolved_outcome(sel, ctx).1,
{
    assert(items.subrange(0, k + 1).drop_last() =~= items.subrange(0, k));
    assert(items.subrange(0, k + 1).last() == items[k]);
    lemma_list_failure_sticks(items, sel, ctx, k + 1);
}

} // verus!
