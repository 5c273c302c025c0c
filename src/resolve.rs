//! The type capability contract and the selection-set resolution engine.
use vstd::prelude::*;
use crate::arguments::{coerced, opt_decls_view, table_entries, table_insert, table_new, table_of, Arguments};
use ordermap::OrderMap;
use crate::directives::{directives_valid, excluded, is_excluded};
use crate::input::{const_of, entries_view, InVal, InputValue};
use crate::schema::{
    field_by_name, find_field, find_fragment, find_type, fragment_by_name, type_by_name,
    ExecContext, Field, FragmentSpread, InlineFragment, MetaField, MetaType, Selection, SourcePosition,
};
use crate::value::{
    first_at, has_key, key_index, lemma_first_occurrence, lemma_merge_all_keeps_order,
    lemma_merge_key_keeps_order, object_entries, ObjectMap, merge_all, merge_key,
    merge_key_into, merge_maps, Val, Value,
};

verus! {

/// An error reported by a field's resolver.
#[derive(Debug)]
pub struct FieldError {
    pub message: String,
}

/// An error recorded during resolution, with the query position it belongs
/// to.
#[derive(Debug)]
pub struct ExecutionError {
    pub message: String,
    pub position: SourcePosition,
}

/// The outcome of resolving one field or value.
pub type ExecutionResult = Result<Value, FieldError>;

/// The model of an outcome: a value, or the message of an error.
pub open spec fn outcome_view(r: ExecutionResult) -> Result<Val, Seq<char>> {
    match r {
        Ok(v) => Ok(v@),
        Err(e) => Err(e.message@),
    }
}

/// The model of recorded errors.
pub open spec fn errors_view(e: Seq<ExecutionError>) -> Seq<(Seq<char>, SourcePosition)> {
    Seq::new(e.len(), |i: int| (e[i].message@, e[i].position))
}

/// The model of an optional selection set.
pub open spec fn opt_sels(s: Option<Vec<Selection>>) -> Option<Seq<Selection>> {
    match s {
        Some(v) => Some(v@),
        None => None,
    }
}

/// The model of an optional borrowed selection set.
pub open spec fn opt_sel_refs(s: Option<&Vec<Selection>>) -> Option<Seq<Selection>> {
    match s {
        Some(v) => Some(v@),
        None => None,
    }
}

/// What a resolution yields: its outcome and the errors it records.
pub type Outcome = (Result<Val, Seq<char>>, Seq<(Seq<char>, SourcePosition)>);

/// The state of a selection-set resolution: whether it still succeeds, the
/// object built so far and the errors recorded so far.
pub type State = (bool, Seq<(Seq<char>, Val)>, Seq<(Seq<char>, SourcePosition)>);

/// The capabilities a value needs to take part in resolution.
///
/// Each spec function below names what the matching executable method
/// yields, and an implementation must define them and prove its methods
/// against them. The placeholder bodies say nothing: an implementation that
/// keeps them (one written outside verified code, for instance) is not
/// covered by the contracts of this trait, and what is proved of resolution
/// holds of it only as far as its methods in fact behave as stated.
///
/// Field resolution, narrowing and the concrete type name are asked only of
/// named types: wrapper types, which have no name, are never asked.
pub trait GraphQLType: Sized {
    /// The name of the type, if it is a named type.
    closed spec fn schema_name() -> Option<Seq<char>> {
        arbitrary()
    }

    /// What resolving field `field` with arguments `args` and sub-selection
    /// `sel` yields.
    closed spec fn field_outcome(
        &self,
        field: Seq<char>,
        args: Option<Seq<(Seq<char>, InVal)>>,
        sel: Option<Seq<Selection>>,
        ctx: ExecContext,
    ) -> Outcome {
        arbitrary()
    }

    /// The name of the concrete type of this instance.
    closed spec fn concrete_name(&self) -> Seq<char> {
        arbitrary()
    }

    /// What narrowing this instance to type `target` yields.
    closed spec fn narrowed_outcome(&self, target: Seq<char>, sel: Seq<Selection>, ctx: ExecContext) -> Outcome {
        arbitrary()
    }

    /// What resolving this instance against `sel` yields.
    closed spec fn resolved_outcome(&self, sel: Option<Seq<Selection>>, ctx: ExecContext) -> Outcome {
        arbitrary()
    }

    /// The name of the type; none for wrapper types.
    fn name() -> (r: Option<String>)
        ensures
            r matches Some(s) ==> Self::schema_name() == Some(s@),
            r is None ==> Self::schema_name() is None,
    ;

    /// Resolves one field of an object; asked of named types only.
    fn resolve_field(
        &self,
        field_name: &String,
        arguments: &Arguments,
        selection_set: &Option<Vec<Selection>>,
        ctx: &ExecContext,
        errors: &mut Vec<ExecutionError>,
    ) -> (r: ExecutionResult)
        requires
            Self::schema_name() is Some,
        ensures
            outcome_view(r) == self.field_outcome(
                field_name@,
                arguments@,
                opt_sels(*selection_set),
                *ctx,
            ).0,
            errors_view(final(errors)@) == errors_view(old(errors)@) + self.field_outcome(
                field_name@,
                arguments@,
                opt_sels(*selection_set),
                *ctx,
            ).1,
    ;

    /// The concrete type name of an object, interface or union instance;
    /// asked of named types only.
    fn concrete_type_name(&self) -> (r: String)
        requires
            Self::schema_name() is Some,
        ensures
            r@ == self.concrete_name(),
    ;

    /// Narrows an interface or union instance to a concrete type; asked of
    /// named types only.
    fn resolve_into_type(
        &self,
        target: &String,
        selection_set: &Vec<Selection>,
        ctx: &ExecContext,
        errors: &mut Vec<ExecutionError>,
    ) -> (r: ExecutionResult)
        requires
            Self::schema_name() is Some,
        ensures
            outcome_view(r) == self.narrowed_outcome(target@, selection_set@, *ctx).0,
            errors_view(final(errors)@) == errors_view(old(errors)@) + self.narrowed_outcome(
                target@,
                selection_set@,
                *ctx,
            ).1,
    ;

    /// Resolves this instance against a selection set.
    fn resolve(
        &self,
        selection_set: Option<&Vec<Selection>>,
        ctx: &ExecContext,
        errors: &mut Vec<ExecutionError>,
    ) -> (r: ExecutionResult)
        ensures
            outcome_view(r) == self.resolved_outcome(opt_sel_refs(selection_set), *ctx).0,
            errors_view(final(errors)@) == errors_view(old(errors)@) + self.resolved_outcome(
                opt_sel_refs(selection_set),
                *ctx,
            ).1,
    ;
}

/// The variables of `ctx`.
pub open spec fn vars_of(ctx: ExecContext) -> Seq<(Seq<char>, InVal)> {
    entries_view(ctx.variables@)
}

/// The key a field writes under: its alias, else its name.
pub open spec fn response_name(f: Field) -> Seq<char> {
    match f.alias {
        Some(a) => a@,
        None => f.name@,
    }
}

/// The arguments written on `f`, with variables substituted.
pub open spec fn given_args(f: Field, vars: Seq<(Seq<char>, InVal)>) -> Option<Seq<(Seq<char>, InVal)>> {
    match f.arguments {
        Some(a) => Some(
            table_of(Seq::new(a.len() as nat, |i: int| (a@[i].0@, const_of(a@[i].1@, vars)))),
        ),
        None => None,
    }
}

/// The argument table handed to the resolver of `f`.
pub open spec fn field_args(f: Field, mf: MetaField, ctx: ExecContext) -> Option<Seq<(Seq<char>, InVal)>> {
    coerced(given_args(f, vars_of(ctx)), opt_decls_view(mf.arguments))
}

/// The message recorded when a non-null field resolves to null.
pub open spec fn null_message() -> Seq<char> {
    "non-null field resolved to null"@
}

/// The name of the meta-field that yields the concrete type name.
pub open spec fn typename_field() -> Seq<char> {
    "__typename"@
}

/// Resolving the selection `sel` from state `(res, errs)`.
pub open spec fn step<T: GraphQLType>(
    inst: T,
    ctx: ExecContext,
    mt: MetaType,
    sel: Selection,
    res: Seq<(Seq<char>, Val)>,
    errs: Seq<(Seq<char>, SourcePosition)>,
    fuel: nat,
) -> State
    decreases fuel, sel,
{
    match sel {
        Selection::Field(f) => if excluded(f.directives, vars_of(ctx)) {
            (true, res, errs)
        } else if f.name@ == typename_field() {
            (true, merge_key(res, response_name(f), Val::Str(inst.concrete_name())), errs)
        } else {
            match field_by_name(mt, f.name@) {
                None => (true, res, errs),
                Some(mf) => {
                    let o = inst.field_outcome(
                        f.name@,
                        field_args(f, mf, ctx),
                        opt_sels(f.selection_set),
                        ctx,
                    );
                    let e = errs + o.1;
                    match o.0 {
                        Ok(v) => if v == Val::Null && mf.non_null {
                            (false, res, e.push((null_message(), f.position)))
                        } else {
                            (true, merge_key(res, response_name(f), v), e)
                        },
                        Err(m) => {
                            let e2 = e.push((m, f.position));
                            if mf.non_null {
                                (false, res, e2)
                            } else {
                                (true, merge_key(res, response_name(f), Val::Null), e2)
                            }
                        },
                    }
                },
            }
        },
        Selection::FragmentSpread(s) => if excluded(s.directives, vars_of(ctx)) {
            (true, res, errs)
        } else {
            match fragment_by_name(ctx, s.name@) {
                None => (true, res, errs),
                Some(fr) => if fuel == 0 {
                    (true, res, errs)
                } else {
                    run(inst, ctx, mt, fr.selection_set@, res, errs, (fuel - 1) as nat)
                },
            }
        },
        Selection::InlineFragment(fi) => if excluded(fi.directives, vars_of(ctx)) {
            (true, res, errs)
        } else {
            match fi.type_condition {
                Some(tc) => {
                    let o = inst.narrowed_outcome(tc@, fi.selection_set@, ctx);
                    let e = errs + o.1;
                    match o.0 {
                        Ok(v) => match v {
                            Val::Object(m) => (true, merge_all(res, m), e),
                            _ => (true, res, e),
                        },
                        Err(m) => (true, res, e.push((m, fi.position))),
                    }
                },
                None => run(inst, ctx, mt, fi.selection_set@, res, errs, fuel),
            }
        },
    }
}

/// Resolving the selections `sels` in order from state `(res, errs)`; the
/// first failure ends the run.
pub open spec fn run<T: GraphQLType>(
    inst: T,
    ctx: ExecContext,
    mt: MetaType,
    sels: Seq<Selection>,
    res: Seq<(Seq<char>, Val)>,
    errs: Seq<(Seq<char>, SourcePosition)>,
    fuel: nat,
) -> State
    decreases fuel, sels,
{
    if sels.len() == 0 {
        (true, res, errs)
    } else {
        let prev = run(inst, ctx, mt, sels.drop_last(), res, errs, fuel);
        if !prev.0 {
            prev
        } else {
            step(inst, ctx, mt, sels.last(), prev.1, prev.2, fuel)
        }
    }
}

/// The selection `sel` is one that a validated document holds for type `mt`:
/// its directives are well formed, its field exists, its fragment exists
/// and fragments nest no deeper than `fuel`.
pub open spec fn sel_valid(ctx: ExecContext, mt: MetaType, sel: Selection, fuel: nat) -> bool
    decreases fuel, sel,
{
    match sel {
        Selection::Field(f) => directives_valid(f.directives, vars_of(ctx)) && (f.name@
            == typename_field() || field_by_name(mt, f.name@) is Some),
        Selection::FragmentSpread(s) => directives_valid(s.directives, vars_of(ctx)) && fuel > 0
            && match fragment_by_name(ctx, s.name@) {
            Some(fr) => sels_valid(ctx, mt, fr.selection_set@, (fuel - 1) as nat),
            None => false,
        },
        Selection::InlineFragment(fi) => directives_valid(fi.directives, vars_of(ctx))
            && match fi.type_condition {
            Some(_) => true,
            None => sels_valid(ctx, mt, fi.selection_set@, fuel),
        },
    }
}

/// Every selection of `sels` is valid.
pub open spec fn sels_valid(ctx: ExecContext, mt: MetaType, sels: Seq<Selection>, fuel: nat) -> bool
    decreases fuel, sels,
{
    if sels.len() == 0 {
        true
    } else {
        sels_valid(ctx, mt, sels.drop_last(), fuel) && sel_valid(ctx, mt, sels.last(), fuel)
    }
}

/// `sels` is a selection set of a validated document for type `T`.
pub open spec fn selection_set_valid<T: GraphQLType>(ctx: ExecContext, sels: Seq<Selection>) -> bool {
    match T::schema_name() {
        Some(n) => match type_by_name(ctx, n) {
            Some(mt) => sels_valid(ctx, mt, sels, ctx.fragments@.len()),
            None => false,
        },
        None => false,
    }
}

/// Resolving `sels` on `inst` from state `(res, errs)`.
pub open spec fn resolution<T: GraphQLType>(
    inst: T,
    ctx: ExecContext,
    sels: Seq<Selection>,
    res: Seq<(Seq<char>, Val)>,
    errs: Seq<(Seq<char>, SourcePosition)>,
) -> State {
    run(inst, ctx, type_by_name(ctx, T::schema_name()->0)->0, sels, res, errs, ctx.fragments@.len())
}

proof fn lemma_valid_prefix(ctx: ExecContext, mt: MetaType, sels: Seq<Selection>, fuel: nat, k: int)
    requires
        0 <= k <= sels.len(),
        sels_valid(ctx, mt, sels, fuel),
    ensures
        sels_valid(ctx, mt, sels.subrange(0, k), fuel),
    decreases sels.len(),
{
    if k < sels.len() {
        lemma_valid_prefix(ctx, mt, sels.drop_last(), fuel, k);
        assert(sels.drop_last().subrange(0, k) =~= sels.subrange(0, k));
    } else {
        assert(sels.subrange(0, k) =~= sels);
    }
}

/// Once a run has failed, later selections change nothing.
pub proof fn lemma_failure_sticks<T: GraphQLType>(
    inst: T,
    ctx: ExecContext,
    mt: MetaType,
    sels: Seq<Selection>,
    res: Seq<(Seq<char>, Val)>,
    errs: Seq<(Seq<char>, SourcePosition)>,
    fuel: nat,
    k: int,
)
    requires
        0 <= k <= sels.len(),
        !run(inst, ctx, mt, sels.subrange(0, k), res, errs, fuel).0,
    ensures
        run(inst, ctx, mt, sels, res, errs, fuel) == run(
            inst,
            ctx,
            mt,
            sels.subrange(0, k),
            res,
            errs,
            fuel,
        ),
    decreases sels.len(),
{
    if k < sels.len() {
        assert(sels.drop_last().subrange(0, k) =~= sels.subrange(0, k));
        lemma_failure_sticks(inst, ctx, mt, sels.drop_last(), res, errs, fuel, k);
    } else {
        assert(sels.subrange(0, k) =~= sels);
    }
}

/// The argument table of a field, with variables substituted.
fn const_args(a: &Vec<(String, InputValue)>, vars: &Vec<(String, InputValue)>) -> (r: OrderMap<
    String,
    InputValue,
>)
    ensures
        table_entries(r) == table_of(
            Seq::new(
                a.len() as nat,
                |i: int| (a@[i].0@, const_of(a@[i].1@, entries_view(vars@))),
            ),
        ),
{
    let ghost whole = Seq::new(
        a.len() as nat,
        |i: int| (a@[i].0@, const_of(a@[i].1@, entries_view(vars@))),
    );
    let mut out = table_new();
    let mut i: usize = 0;
    proof {
        assert(whole.subrange(0, 0) =~= Seq::<(Seq<char>, InVal)>::empty());
    }
    while i < a.len()
        invariant
            i <= a.len(),
            whole.len() == a.len(),
            whole == Seq::new(
                a.len() as nat,
                |i: int| (a@[i].0@, const_of(a@[i].1@, entries_view(vars@))),
            ),
            table_entries(out) == table_of(whole.subrange(0, i as int)),
        decreases a.len() - i,
    {
        let k = a[i].0.clone();
        let v = a[i].1.into_const(vars);
        table_insert(&mut out, k, v);
        proof {
            assert(whole.subrange(0, i + 1).drop_last() =~= whole.subrange(0, i as int));
            assert(whole.subrange(0, i + 1).last() == whole[i as int]);
        }
        i += 1;
    }
    proof {
        assert(whole.subrange(0, a.len() as int) =~= whole);
    }
    out
}

/// Records `message` at `position`.
fn record(errors: &mut Vec<ExecutionError>, message: String, position: SourcePosition)
    ensures
        errors_view(final(errors)@) == errors_view(old(errors)@).push((message@, position)),
{
    let ghost m = message@;
    errors.push(ExecutionError { message, position });
    proof {
        assert(errors_view(final(errors)@) =~= errors_view(old(errors)@).push((m, position)));
    }
}

fn resolve_one<T: GraphQLType>(
    inst: &T,
    mt: &MetaType,
    sel: &Selection,
    ctx: &ExecContext,
    result: &mut ObjectMap,
    errors: &mut Vec<ExecutionError>,
    fuel: usize,
) -> (r: bool)
    requires
        T::schema_name() is Some,
        sel_valid(*ctx, *mt, *sel, fuel as nat),
    ensures
        step(
            *inst,
            *ctx,
            *mt,
            *sel,
            object_entries(*old(result)),
            errors_view(old(errors)@),
            fuel as nat,
        ) == (r, object_entries(*final(result)), errors_view(final(errors)@)),
    decreases fuel, *sel,
{
    match sel {
        Selection::Field(f) => {
            if is_excluded(&f.directives, &ctx.variables) {
                return true;
            }
            let rn = match &f.alias {
                Some(a) => a.clone(),
                None => f.name.clone(),
            };
            let tn = "__typename".to_owned();
            if f.name == tn {
                let s = inst.concrete_type_name();
                merge_key_into(result, rn, Value::String(s));
                return true;
            }
            let mf = match find_field(mt, &f.name) {
                Some(m) => m,
                None => {
                    return true;
                },
            };
            let given = match &f.arguments {
                Some(a) => Some(const_args(a, &ctx.variables)),
                None => None,
            };
            let args = Arguments::new(given, &mf.arguments);
            let out = inst.resolve_field(&f.name, &args, &f.selection_set, ctx, errors);
            match out {
                Ok(v) => {
                    let is_null = match &v {
                        Value::Null => true,
                        _ => false,
                    };
                    if is_null && mf.non_null {
                        record(errors, "non-null field resolved to null".to_owned(), f.position);
                        return false;
                    }
                    merge_key_into(result, rn, v);
                    true
                },
                Err(e) => {
                    record(errors, e.message, f.position);
                    if mf.non_null {
                        return false;
                    }
                    merge_key_into(result, rn, Value::Null);
                    true
                },
            }
        },
        Selection::FragmentSpread(s) => {
            if is_excluded(&s.directives, &ctx.variables) {
                return true;
            }
            match find_fragment(ctx, &s.name) {
                None => true,
                Some(fr) => {
                    if fuel == 0 {
                        true
                    } else {
                        resolve_sels(inst, mt, &fr.selection_set, ctx, result, errors, fuel - 1)
                    }
                },
            }
        },
        Selection::InlineFragment(fi) => {
            if is_excluded(&fi.directives, &ctx.variables) {
                return true;
            }
            match &fi.type_condition {
                Some(tc) => {
                    let out = inst.resolve_into_type(tc, &fi.selection_set, ctx, errors);
                    match out {
                        Ok(v) => {
                            match v {
                                Value::Object(m) => {
                                    merge_maps(result, m);
                                },
                                _ => {},
                            }
                            true
                        },
                        Err(e) => {
                            record(errors, e.message, fi.position);
                            true
                        },
                    }
                },
                None => resolve_sels(inst, mt, &fi.selection_set, ctx, result, errors, fuel),
            }
        },
    }
}

fn resolve_sels<T: GraphQLType>(
    inst: &T,
    mt: &MetaType,
    sels: &Vec<Selection>,
    ctx: &ExecContext,
    result: &mut ObjectMap,
    errors: &mut Vec<ExecutionError>,
    fuel: usize,
) -> (r: bool)
    requires
        T::schema_name() is Some,
        sels_valid(*ctx, *mt, sels@, fuel as nat),
    ensures
        run(
            *inst,
            *ctx,
            *mt,
            sels@,
            object_entries(*old(result)),
            errors_view(old(errors)@),
            fuel as nat,
        ) == (r, object_entries(*final(result)), errors_view(final(errors)@)),
    decreases fuel, sels@,
{
    let ghost r0 = object_entries(*result);
    let ghost e0 = errors_view(errors@);
    let ghost s = sels@;
    let mut i: usize = 0;
    while i < sels.len()
        invariant
            i <= s.len(),
            s == sels@,
            T::schema_name() is Some,
            r0 == object_entries(*old(result)),
            e0 == errors_view(old(errors)@),
            sels_valid(*ctx, *mt, s, fuel as nat),
            run(*inst, *ctx, *mt, s.subrange(0, i as int), r0, e0, fuel as nat) == (
                true,
                object_entries(*result),
                errors_view(errors@),
            ),
        decreases s.len() - i,
    {
        proof {
            lemma_valid_prefix(*ctx, *mt, s, fuel as nat, i + 1);
            assert(s.subrange(0, i + 1).drop_last() =~= s.subrange(0, i as int));
            assert(s.subrange(0, i + 1).last() == s[i as int]);
            assert(decreases_to!(s => s[i as int]));
        }
        let ghost rb = object_entries(*result);
        let ghost eb = errors_view(errors@);
        let ok = resolve_one(inst, mt, &sels[i], ctx, result, errors, fuel);
        proof {
            assert(run(*inst, *ctx, *mt, s.subrange(0, i + 1), r0, e0, fuel as nat) == step(
                *inst,
                *ctx,
                *mt,
                s[i as int],
                rb,
                eb,
                fuel as nat,
            ));
        }
        if !ok {
            proof {
                lemma_failure_sticks(*inst, *ctx, *mt, s, r0, e0, fuel as nat, i + 1);
            }
            return false;
        }
        i += 1;
    }
    proof {
        assert(s.subrange(0, s.len() as int) =~= s);
    }
    true
}

/// Resolves `selection_set` on `instance`, writing into `result`: fields in
/// document order, fragments spliced in at the same level, and entries under
/// one key merged. Returns false when a non-null field came out null or
/// failed.
pub fn resolve_selection_set_into<T: GraphQLType>(
    instance: &T,
    selection_set: &Vec<Selection>,
    ctx: &ExecContext,
    result: &mut ObjectMap,
    errors: &mut Vec<ExecutionError>,
) -> (r: bool)
    requires
        selection_set_valid::<T>(*ctx, selection_set@),
    ensures
        resolution(
            *instance,
            *ctx,
            selection_set@,
            object_entries(*old(result)),
            errors_view(old(errors)@),
        ) == (r, object_entries(*final(result)), errors_view(final(errors)@)),
{
    let n = T::name();
    let tn = match n {
        Some(t) => t,
        None => {
            return false;
        },
    };
    let mt = match find_type(ctx, &tn) {
        Some(m) => m,
        None => {
            return false;
        },
    };
    resolve_sels(instance, mt, selection_set, ctx, result, errors, ctx.fragments.len())
}

/// Appends the errors of `local` to `errors`.
fn append_errors(errors: &mut Vec<ExecutionError>, local: &mut Vec<ExecutionError>)
    ensures
        errors_view(final(errors)@) == errors_view(old(errors)@) + errors_view(old(local)@),
{
    let ghost a = old(errors)@;
    let ghost b = old(local)@;
    errors.append(local);
    proof {
        assert(errors_view(a + b) =~= errors_view(a) + errors_view(b));
    }
}

/// What resolving `sels` on the object `inst` yields: the object built, or
/// null when a non-null field failed; and the errors recorded.
pub open spec fn object_outcome<T: GraphQLType>(inst: T, ctx: ExecContext, sels: Seq<Selection>) -> Outcome {
    let s = resolution(inst, ctx, sels, Seq::empty(), Seq::empty());
    (
        if s.0 {
            Ok(Val::Object(s.1))
        } else {
            Ok(Val::Null)
        },
        s.2,
    )
}

/// Resolves an object against a selection set through its fields: the
/// resolution that object types use.
pub fn resolve_object<T: GraphQLType>(
    instance: &T,
    selection_set: &Vec<Selection>,
    ctx: &ExecContext,
    errors: &mut Vec<ExecutionError>,
) -> (r: ExecutionResult)
    requires
        selection_set_valid::<T>(*ctx, selection_set@),
    ensures
        outcome_view(r) == object_outcome(*instance, *ctx, selection_set@).0,
        errors_view(final(errors)@) == errors_view(old(errors)@) + object_outcome(
            *instance,
            *ctx,
            selection_set@,
        ).1,
{
    let mut result = ObjectMap::new();
    let mut local: Vec<ExecutionError> = Vec::new();
    proof {
        assert(errors_view(local@) =~= Seq::empty());
    }
    let ok = resolve_selection_set_into(instance, selection_set, ctx, &mut result, &mut local);
    append_errors(errors, &mut local);
    if ok {
        Ok(Value::Object(result))
    } else {
        Ok(Value::Null)
    }
}

/// The directives attached to a selection.
pub open spec fn directives_of(sel: Selection) -> Option<Vec<crate::directives::Directive>> {
    match sel {
        Selection::Field(f) => f.directives,
        Selection::FragmentSpread(s) => s.directives,
        Selection::InlineFragment(fi) => fi.directives,
    }
}

/// A field whose declared type is non-null and whose resolver yields null
/// fails the enclosing selection set, wherever it stands in it, and the
/// enclosing object then resolves to null.
pub proof fn lemma_non_null_field_fails_parent<T: GraphQLType>(
    inst: T,
    ctx: ExecContext,
    before: Seq<Selection>,
    f: Field,
    after: Seq<Selection>,
)
    requires
        T::schema_name() is Some,
        type_by_name(ctx, T::schema_name()->0) is Some,
        !excluded(f.directives, vars_of(ctx)),
        f.name@ != typename_field(),
        ({
            let mt = type_by_name(ctx, T::schema_name()->0)->0;
            &&& field_by_name(mt, f.name@) matches Some(mf)
            &&& mf.non_null
            &&& inst.field_outcome(
                f.name@,
                field_args(f, mf, ctx),
                opt_sels(f.selection_set),
                ctx,
            ).0 == Ok::<Val, Seq<char>>(Val::Null)
        }),
    ensures
        !resolution(inst, ctx, before.push(Selection::Field(f)) + after, Seq::empty(), Seq::empty()).0,
        object_outcome(inst, ctx, before.push(Selection::Field(f)) + after).0 == Ok::<Val, Seq<char>>(Val::Null),
{
    let mt = type_by_name(ctx, T::schema_name()->0)->0;
    let fuel = ctx.fragments@.len();
    let sels = before.push(Selection::Field(f)) + after;
    let k: int = before.len() as int + 1;
    let e: Seq<(Seq<char>, SourcePosition)> = Seq::empty();
    let r: Seq<(Seq<char>, Val)> = Seq::empty();
    assert(sels.subrange(0, k) =~= before.push(Selection::Field(f)));
    assert(before.push(Selection::Field(f)).drop_last() =~= before);
    let prev = run(inst, ctx, mt, before, r, e, fuel);
    if prev.0 {
        assert(!step(inst, ctx, mt, Selection::Field(f), prev.1, prev.2, fuel).0);
    }
    assert(!run(inst, ctx, mt, sels.subrange(0, k), r, e, fuel).0);
    lemma_failure_sticks(inst, ctx, mt, sels, r, e, fuel, k);
}

/// An excluded field or fragment adds no entry and records no error,
/// whatever it would have resolved to.
pub proof fn lemma_excluded_adds_nothing<T: GraphQLType>(
    inst: T,
    ctx: ExecContext,
    mt: MetaType,
    sels: Seq<Selection>,
    sel: Selection,
    res: Seq<(Seq<char>, Val)>,
    errs: Seq<(Seq<char>, SourcePosition)>,
    fuel: nat,
)
    requires
        excluded(directives_of(sel), vars_of(ctx)),
    ensures
        step(inst, ctx, mt, sel, res, errs, fuel) == (true, res, errs),
        run(inst, ctx, mt, sels.push(sel), res, errs, fuel) == run(inst, ctx, mt, sels, res, errs, fuel),
{
    assert(sels.push(sel).drop_last() =~= sels);
    let prev = run(inst, ctx, mt, sels, res, errs, fuel);
    assert(step(inst, ctx, mt, sel, prev.1, prev.2, fuel) == (true, prev.1, prev.2));
}

/// `__typename` writes the concrete type name of the instance under the
/// field's response key, and records no error.
pub proof fn lemma_typename<T: GraphQLType>(
    inst: T,
    ctx: ExecContext,
    mt: MetaType,
    f: Field,
    res: Seq<(Seq<char>, Val)>,
    errs: Seq<(Seq<char>, SourcePosition)>,
    fuel: nat,
)
    requires
        !excluded(f.directives, vars_of(ctx)),
        f.name@ == typename_field(),
        !has_key(res, response_name(f)),
    ensures
        ({
            let out = step(inst, ctx, mt, Selection::Field(f), res, errs, fuel);
            &&& out.0
            &&& out.2 == errs
            &&& has_key(out.1, response_name(f))
            &&& out.1[key_index(out.1, response_name(f))].1 == Val::Str(inst.concrete_name())
        }),
{
    let k = response_name(f);
    let v = Val::Str(inst.concrete_name());
    let out = merge_key(res, k, v);
    assert(out == res.push((k, v)));
    {
        assert forall|j: int| 0 <= j < res.len() implies out[j].0 != k by {
            if out[j].0 == k {
                lemma_first_occurrence(res, k, j);
            }
        }
        assert(first_at(out, k, res.len() as int));
        assert forall|j: int| first_at(out, k, j) implies j == res.len() by {}
    }
}

/// A non-null field whose resolver yields null fails the selection set and
/// records one error at the field's position, after the errors the
/// resolver recorded itself.
pub proof fn lemma_null_non_null_field_records_error<T: GraphQLType>(
    inst: T,
    ctx: ExecContext,
    mt: MetaType,
    f: Field,
    mf: MetaField,
    res: Seq<(Seq<char>, Val)>,
    errs: Seq<(Seq<char>, SourcePosition)>,
    fuel: nat,
)
    requires
        !excluded(f.directives, vars_of(ctx)),
        f.name@ != typename_field(),
        field_by_name(mt, f.name@) == Some(mf),
        mf.non_null,
        inst.field_outcome(f.name@, field_args(f, mf, ctx), opt_sels(f.selection_set), ctx).0
            == Ok::<Val, Seq<char>>(Val::Null),
    ensures
        step(inst, ctx, mt, Selection::Field(f), res, errs, fuel) == (
            false,
            res,
            (errs + inst.field_outcome(
                f.name@,
                field_args(f, mf, ctx),
                opt_sels(f.selection_set),
                ctx,
            ).1).push((null_message(), f.position)),
        ),
{
}

/// A nullable field whose resolver fails records that error once, at the
/// field's position, after the errors the resolver recorded itself, and
/// writes null under its response key (keeping a value written there
/// first).
pub proof fn lemma_failed_field_records_its_error<T: GraphQLType>(
    inst: T,
    ctx: ExecContext,
    mt: MetaType,
    f: Field,
    mf: MetaField,
    res: Seq<(Seq<char>, Val)>,
    errs: Seq<(Seq<char>, SourcePosition)>,
    fuel: nat,
    m: Seq<char>,
)
    requires
        !excluded(f.directives, vars_of(ctx)),
        f.name@ != typename_field(),
        field_by_name(mt, f.name@) == Some(mf),
        !mf.non_null,
        inst.field_outcome(f.name@, field_args(f, mf, ctx), opt_sels(f.selection_set), ctx).0
            == Err::<Val, Seq<char>>(m),
    ensures
        step(inst, ctx, mt, Selection::Field(f), res, errs, fuel) == (
            true,
            merge_key(res, response_name(f), Val::Null),
            errs + inst.field_outcome(
                f.name@,
                field_args(f, mf, ctx),
                opt_sels(f.selection_set),
                ctx,
            ).1.push((m, f.position)),
        ),
{
}

/// A fragment spread whose fragment fails fails the selection set it is
/// spliced into.
pub proof fn lemma_spread_failure_fails_parent<T: GraphQLType>(
    inst: T,
    ctx: ExecContext,
    mt: MetaType,
    sp: FragmentSpread,
    res: Seq<(Seq<char>, Val)>,
    errs: Seq<(Seq<char>, SourcePosition)>,
    fuel: nat,
)
    requires
        !excluded(sp.directives, vars_of(ctx)),
        fuel > 0,
        fragment_by_name(ctx, sp.name@) matches Some(fr) && !run(
            inst,
            ctx,
            mt,
            fr.selection_set@,
            res,
            errs,
            (fuel - 1) as nat,
        ).0,
    ensures
        !step(inst, ctx, mt, Selection::FragmentSpread(sp), res, errs, fuel).0,
{
}

/// An inline fragment without type condition whose selections fail fails
/// the selection set it is spliced into.
pub proof fn lemma_inline_failure_fails_parent<T: GraphQLType>(
    inst: T,
    ctx: ExecContext,
    mt: MetaType,
    fi: InlineFragment,
    res: Seq<(Seq<char>, Val)>,
    errs: Seq<(Seq<char>, SourcePosition)>,
    fuel: nat,
)
    requires
        !excluded(fi.directives, vars_of(ctx)),
        fi.type_condition is None,
        !run(inst, ctx, mt, fi.selection_set@, res, errs, fuel).0,
    ensures
        !step(inst, ctx, mt, Selection::InlineFragment(fi), res, errs, fuel).0,
{
}

/// A nullable field that yields null (as an object whose selection set
/// failed does) writes null and does not fail its own selection set: the
/// failure stops at the nearest nullable field.
pub proof fn lemma_null_stops_at_nullable_field<T: GraphQLType>(
    inst: T,
    ctx: ExecContext,
    mt: MetaType,
    f: Field,
    mf: MetaField,
    res: Seq<(Seq<char>, Val)>,
    errs: Seq<(Seq<char>, SourcePosition)>,
    fuel: nat,
)
    requires
        !excluded(f.directives, vars_of(ctx)),
        f.name@ != typename_field(),
        field_by_name(mt, f.name@) == Some(mf),
        !mf.non_null,
        inst.field_outcome(f.name@, field_args(f, mf, ctx), opt_sels(f.selection_set), ctx).0
            == Ok::<Val, Seq<char>>(Val::Null),
    ensures
        step(inst, ctx, mt, Selection::Field(f), res, errs, fuel) == (
            true,
            merge_key(res, response_name(f), Val::Null),
            errs + inst.field_outcome(
                f.name@,
                field_args(f, mf, ctx),
                opt_sels(f.selection_set),
                ctx,
            ).1,
        ),
{
}

/// Resolving one selection never moves a key already written: present keys
/// stay at their positions and new keys come after them.
pub proof fn lemma_step_keeps_keys<T: GraphQLType>(
    inst: T,
    ctx: ExecContext,
    mt: MetaType,
    sel: Selection,
    res: Seq<(Seq<char>, Val)>,
    errs: Seq<(Seq<char>, SourcePosition)>,
    fuel: nat,
)
    ensures
        step(inst, ctx, mt, sel, res, errs, fuel).1.len() >= res.len(),
        forall|i: int|
            0 <= i < res.len() ==> #[trigger] step(inst, ctx, mt, sel, res, errs, fuel).1[i].0
                == res[i].0,
    decreases fuel, sel,
{
    match sel {
        Selection::Field(f) => {
            if !excluded(f.directives, vars_of(ctx)) {
                if f.name@ == typename_field() {
                    lemma_merge_key_keeps_order(res, response_name(f), Val::Str(inst.concrete_name()));
                } else if let Some(mf) = field_by_name(mt, f.name@) {
                    let o = inst.field_outcome(f.name@, field_args(f, mf, ctx), opt_sels(f.selection_set), ctx);
                    match o.0 {
                        Ok(v) => lemma_merge_key_keeps_order(res, response_name(f), v),
                        Err(_) => lemma_merge_key_keeps_order(res, response_name(f), Val::Null),
                    }
                }
            }
        },
        Selection::FragmentSpread(sp) => {
            if !excluded(sp.directives, vars_of(ctx)) && fuel > 0 {
                if let Some(fr) = fragment_by_name(ctx, sp.name@) {
                    lemma_run_keeps_keys(inst, ctx, mt, fr.selection_set@, res, errs, (fuel - 1) as nat);
                }
            }
        },
        Selection::InlineFragment(fi) => {
            if !excluded(fi.directives, vars_of(ctx)) {
                match fi.type_condition {
                    Some(tc) => {
                        let o = inst.narrowed_outcome(tc@, fi.selection_set@, ctx);
                        if let Ok(Val::Object(m)) = o.0 {
                            lemma_merge_all_keeps_order(res, m);
                        }
                    },
                    None => {
                        assert(decreases_to!(sel => fi));
                        assert(decreases_to!(fi => fi.selection_set));
                        assert(decreases_to!(fi.selection_set => fi.selection_set@));
                        lemma_run_keeps_keys(inst, ctx, mt, fi.selection_set@, res, errs, fuel);
                    },
                }
            }
        },
    }
}

/// Resolving a selection set never moves a key already written: present
/// keys stay at their positions and new keys come after them, in the order
/// of their first write.
pub proof fn lemma_run_keeps_keys<T: GraphQLType>(
    inst: T,
    ctx: ExecContext,
    mt: MetaType,
    sels: Seq<Selection>,
    res: Seq<(Seq<char>, Val)>,
    errs: Seq<(Seq<char>, SourcePosition)>,
    fuel: nat,
)
    ensures
        run(inst, ctx, mt, sels, res, errs, fuel).1.len() >= res.len(),
        forall|i: int|
            0 <= i < res.len() ==> #[trigger] run(inst, ctx, mt, sels, res, errs, fuel).1[i].0
                == res[i].0,
    decreases fuel, sels,
{
    if sels.len() > 0 {
        lemma_run_keeps_keys(inst, ctx, mt, sels.drop_last(), res, errs, fuel);
        let prev = run(inst, ctx, mt, sels.drop_last(), res, errs, fuel);
        if prev.0 {
            assert(decreases_to!(sels => sels[sels.len() - 1]));
            lemma_step_keeps_keys(inst, ctx, mt, sels.last(), prev.1, prev.2, fuel);
            assert forall|i: int| 0 <= i < res.len() implies #[trigger] run(
                inst,
                ctx,
                mt,
                sels,
                res,
                errs,
                fuel,
            ).1[i].0 == res[i].0 by {
                assert(prev.1[i].0 == res[i].0);
                assert(step(inst, ctx, mt, sels.last(), prev.1, prev.2, fuel).1[i].0 == prev.1[i].0);
            }
        }
    }
}

/// Narrows an instance to its own type: resolves it against the selection
/// set, as `resolve` does.
pub fn resolve_into_own_type<T: GraphQLType>(
    instance: &T,
    target: &String,
    selection_set: &Vec<Selection>,
    ctx: &ExecContext,
    errors: &mut Vec<ExecutionError>,
) -> (r: ExecutionResult)
    requires
        T::schema_name() == Some(target@),
    ensures
        outcome_view(r) == instance.resolved_outcome(Some(selection_set@), *ctx).0,
        errors_view(final(errors)@) == errors_view(old(errors)@) + instance.resolved_outcome(
            Some(selection_set@),
            *ctx,
        ).1,
{
    instance.resolve(Some(selection_set), ctx, errors)
}

} // verus!
