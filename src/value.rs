//! Response values and the merging of values written under one key.
use vstd::prelude::*;

verus! {

/// Mathematical model of a response value.
pub enum Val {
    Null,
    Int(i64),
    Str(Seq<char>),
    Boolean(bool),
    List(Seq<Val>),
    Object(Seq<(Seq<char>, Val)>),
}

/// The entries of a response object: keys unique, in order of first write.
#[verifier::external_body]
#[derive(Debug)]
pub struct ObjectMap {
    inner: ordermap::OrderMap<String, Value>,
}

/// The entries of `m`, in order.
pub uninterp spec fn object_entries(m: ObjectMap) -> Seq<(Seq<char>, Val)>;

/// A response value: null, a scalar leaf, an ordered list or an ordered
/// object.
#[derive(Debug)]
pub enum Value {
    Null,
    Int(i64),
    String(String),
    Boolean(bool),
    List(Vec<Value>),
    Object(ObjectMap),
}

impl View for Value {
    type V = Val;

    open spec fn view(&self) -> Val {
        value_view(*self)
    }
}

/// The model of a value.
pub open spec fn value_view(v: Value) -> Val
    decreases v,
{
    match v {
        Value::Null => Val::Null,
        Value::Int(n) => Val::Int(n),
        Value::String(s) => Val::Str(s@),
        Value::Boolean(b) => Val::Boolean(b),
        Value::List(items) => Val::List(
            Seq::new(
                items.len() as nat,
                |i: int|
                    if 0 <= i < items.len() {
                        value_view(items[i])
                    } else {
                        Val::Null
                    },
            ),
        ),
        Value::Object(m) => Val::Object(object_entries(m)),
    }
}

/// The model of the entries of an object, in order.
pub open spec fn fields_view(f: Seq<(String, Value)>) -> Seq<(Seq<char>, Val)> {
    Seq::new(f.len(), |i: int| (f[i].0@, f[i].1@))
}

/// The model of the items of a list, in order.
pub open spec fn items_view(f: Seq<Value>) -> Seq<Val> {
    Seq::new(f.len(), |i: int| f[i]@)
}

pub proof fn lemma_list_view(f: Vec<Value>)
    ensures
        Value::List(f)@ == Val::List(items_view(f@)),
{
    let m = Value::List(f)@->List_0;
    assert(m =~= items_view(f@));
}

/// `i` is the first position of key `k` in `m`.
pub open spec fn first_at(m: Seq<(Seq<char>, Val)>, k: Seq<char>, i: int) -> bool {
    &&& 0 <= i < m.len()
    &&& m[i].0 == k
    &&& forall|j: int| 0 <= j < i ==> m[j].0 != k
}

/// Whether `k` is a key of the ordered entries `m`.
pub open spec fn has_key(m: Seq<(Seq<char>, Val)>, k: Seq<char>) -> bool {
    exists|i: int| first_at(m, k, i)
}

/// The first position of key `k` in `m` (meaningful when `has_key(m, k)`).
pub open spec fn key_index(m: Seq<(Seq<char>, Val)>, k: Seq<char>) -> int {
    choose|i: int| first_at(m, k, i)
}

/// No key occurs twice in `m`.
pub open spec fn keys_unique(m: Seq<(Seq<char>, Val)>) -> bool {
    forall|i: int, j: int| 0 <= i < j < m.len() ==> m[i].0 != m[j].0
}

/// The keys of every object within `v` are unique.
pub open spec fn deep_unique(v: Val) -> bool
    decreases v,
{
    match v {
        Val::Object(m) => keys_unique(m) && forall|i: int|
            0 <= i < m.len() ==> deep_unique(#[trigger] m[i].1),
        _ => true,
    }
}

/// Writes `v` under `k`: replaces the value in place when the key exists,
/// appends the entry otherwise.
pub open spec fn insert_key(m: Seq<(Seq<char>, Val)>, k: Seq<char>, v: Val) -> Seq<(Seq<char>, Val)> {
    if has_key(m, k) {
        m.update(key_index(m, k), (k, v))
    } else {
        m.push((k, v))
    }
}

/// Writes `v` under `k` with the merge rule: a new key is appended; when
/// both the present and the incoming value are objects they are merged
/// entry by entry; otherwise the present value stays.
pub open spec fn merge_key(m: Seq<(Seq<char>, Val)>, k: Seq<char>, v: Val) -> Seq<(Seq<char>, Val)>
    decreases v,
{
    if has_key(m, k) {
        let i = key_index(m, k);
        match (m[i].1, v) {
            (Val::Object(d), Val::Object(s)) => m.update(i, (k, Val::Object(merge_all(d, s)))),
            _ => m,
        }
    } else {
        m.push((k, v))
    }
}

/// Merges the entries of `s`, in order, into `d`.
pub open spec fn merge_all(d: Seq<(Seq<char>, Val)>, s: Seq<(Seq<char>, Val)>) -> Seq<(Seq<char>, Val)>
    decreases s,
{
    if s.len() == 0 {
        d
    } else {
        merge_key(merge_all(d, s.drop_last()), s.last().0, s.last().1)
    }
}

/// Relies on `OrderMap::new`: a new map is empty.
#[verifier::external_body]
fn map_new() -> (r: ObjectMap)
    ensures
        object_entries(r) == Seq::<(Seq<char>, Val)>::empty(),
        keys_unique(object_entries(r)),
{
    ObjectMap { inner: ordermap::OrderMap::new() }
}

/// Relies on `OrderMap::insert`: a key already present keeps its place and
/// takes the new value, and the value it held is returned; a new key goes
/// last and nothing is returned.
#[verifier::external_body]
fn map_insert(m: &mut ObjectMap, key: String, value: Value) -> (r: Option<Value>)
    ensures
        object_entries(*final(m)) == insert_key(object_entries(*old(m)), key@, value@),
        keys_unique(object_entries(*final(m))),
        r is None <==> !has_key(object_entries(*old(m)), key@),
        r matches Some(v) ==> v@ == object_entries(*old(m))[key_index(
            object_entries(*old(m)),
            key@,
        )].1,
{
    m.inner.insert(key, value)
}

/// Relies on `OrderMap::into_iter`: the entries come out in their order,
/// each key once.
#[verifier::external_body]
fn map_into_entries(m: ObjectMap) -> (r: Vec<(String, Value)>)
    ensures
        fields_view(r@) == object_entries(m),
        keys_unique(fields_view(r@)),
{
    m.inner.into_iter().collect()
}

proof fn lemma_update_keeps_index(m: Seq<(Seq<char>, Val)>, k: Seq<char>, v: Val)
    requires
        has_key(m, k),
    ensures
        has_key(m.update(key_index(m, k), (k, v)), k),
        key_index(m.update(key_index(m, k), (k, v)), k) == key_index(m, k),
{
    let i = key_index(m, k);
    let m1 = m.update(i, (k, v));
    assert(first_at(m1, k, i));
    assert forall|j: int| first_at(m1, k, j) implies j == i by {
        if j > i {
            assert(m1[i].0 == k);
        }
    }
}

proof fn lemma_push_new_index(m: Seq<(Seq<char>, Val)>, k: Seq<char>, v: Val)
    requires
        !has_key(m, k),
    ensures
        has_key(m.push((k, v)), k),
        key_index(m.push((k, v)), k) == m.len(),
{
    let m1 = m.push((k, v));
    assert forall|j: int| 0 <= j < m.len() implies m1[j].0 != k by {
        if m1[j].0 == k {
            assert(m[j].0 == k);
            lemma_first_occurrence(m, k, j);
        }
    }
    assert(first_at(m1, k, m.len() as int));
    assert forall|j: int| first_at(m1, k, j) implies j == m.len() by {}
}

impl ObjectMap {
    /// An object without entries.
    pub fn new() -> (r: ObjectMap)
        ensures
            object_entries(r) == Seq::<(Seq<char>, Val)>::empty(),
    {
        map_new()
    }

    /// An object holding `entries`, each written in turn with `insert`.
    pub fn from_entries(entries: Vec<(String, Value)>) -> (r: ObjectMap)
        ensures
            object_entries(r) == fields_view(entries@).fold_left(
                Seq::<(Seq<char>, Val)>::empty(),
                |m: Seq<(Seq<char>, Val)>, e: (Seq<char>, Val)| insert_key(m, e.0, e.1),
            ),
    {
        let ghost s0 = fields_view(entries@);
        let total = entries.len();
        let mut rest = entries;
        let mut m = map_new();
        let mut n: usize = 0;
        while rest.len() > 0
            invariant
                n + rest.len() == total,
                total == s0.len(),
                fields_view(rest@) == s0.subrange(n as int, total as int),
                object_entries(m) == s0.subrange(0, n as int).fold_left(
                    Seq::<(Seq<char>, Val)>::empty(),
                    |m: Seq<(Seq<char>, Val)>, e: (Seq<char>, Val)| insert_key(m, e.0, e.1),
                ),
            decreases rest.len(),
        {
            let ghost before = rest@;
            let (k, v) = rest.remove(0);
            proof {
                assert(fields_view(before)[0] == (k@, v@));
                assert forall|j: int| 0 <= j < rest.len() implies fields_view(rest@)[j] == s0[n
                    + 1 + j] by {
                    assert(rest@[j] == before[j + 1]);
                    assert(fields_view(before)[j + 1] == s0[n + 1 + j]);
                }
                assert(fields_view(rest@) =~= s0.subrange(n + 1, total as int));
                assert(s0.subrange(0, n + 1).drop_last() =~= s0.subrange(0, n as int));
            }
            map_insert(&mut m, k, v);
            n += 1;
        }
        proof {
            assert(s0.subrange(0, total as int) =~= s0);
        }
        m
    }

    /// The entries of the object, in order.
    pub fn into_entries(self) -> (r: Vec<(String, Value)>)
        ensures
            fields_view(r@) == object_entries(self),
            keys_unique(fields_view(r@)),
    {
        map_into_entries(self)
    }
}

/// Writes `value` under `key`, replacing a present value in place.
pub fn insert_key_into(result: &mut ObjectMap, key: String, value: Value)
    ensures
        object_entries(*final(result)) == insert_key(object_entries(*old(result)), key@, value@),
{
    map_insert(result, key, value);
}

/// Writes `value` under `key` with the merge rule of `merge_key`.
pub fn merge_key_into(result: &mut ObjectMap, key: String, value: Value)
    ensures
        object_entries(*final(result)) == merge_key(object_entries(*old(result)), key@, value@),
    decreases value@,
{
    let ghost m0 = object_entries(*result);
    let ghost k0 = key@;
    let ghost v0 = value@;
    let k2 = key.clone();
    let prev = map_insert(result, key, Value::Null);
    match prev {
        None => {
            proof {
                lemma_push_new_index(m0, k0, Val::Null);
            }
            map_insert(result, k2, value);
            proof {
                assert(m0.push((k0, Val::Null)).update(m0.len() as int, (k0, v0)) =~= m0.push(
                    (k0, v0),
                ));
            }
        },
        Some(existing) => {
            let ghost i = key_index(m0, k0);
            proof {
                lemma_update_keeps_index(m0, k0, Val::Null);
            }
            match (existing, value) {
                (Value::Object(mut d), Value::Object(s)) => {
                    proof {
                        assert(v0->Object_0 == object_entries(s));
                        assert(decreases_to!(v0 => v0->Object_0));
                    }
                    merge_maps(&mut d, s);
                    let ghost merged = Val::Object(object_entries(d));
                    map_insert(result, k2, Value::Object(d));
                    proof {
                        assert(m0.update(i, (k0, Val::Null)).update(i, (k0, merged)) =~= m0.update(
                            i,
                            (k0, merged),
                        ));
                    }
                },
                (existing, _) => {
                    let ghost e = existing@;
                    map_insert(result, k2, existing);
                    proof {
                        assert(m0.update(i, (k0, Val::Null)).update(i, (k0, e)) =~= m0);
                    }
                },
            }
        },
    }
}

/// Merges every entry of `src`, in order, into `dest`.
pub fn merge_maps(dest: &mut ObjectMap, src: ObjectMap)
    ensures
        object_entries(*final(dest)) == merge_all(object_entries(*old(dest)), object_entries(src)),
        keys_unique(object_entries(src)),
        object_entries(*old(dest)).len() == 0 ==> object_entries(*final(dest)) == object_entries(
            src,
        ),
    decreases object_entries(src),
{
    let ghost s0 = object_entries(src);
    let ghost d0 = object_entries(*dest);
    let entries = map_into_entries(src);
    let total = entries.len();
    let mut rest = entries;
    let mut n: usize = 0;
    while rest.len() > 0
        invariant
            n + rest.len() == total,
            total == s0.len(),
            s0 == object_entries(src),
            fields_view(rest@) == s0.subrange(n as int, total as int),
            object_entries(*dest) == merge_all(d0, s0.subrange(0, n as int)),
        decreases rest.len(),
    {
        let ghost before = rest@;
        let (k, v) = rest.remove(0);
        proof {
            assert(fields_view(before)[0] == (k@, v@));
            assert(s0[n as int] == (k@, v@));
            assert forall|j: int| 0 <= j < rest.len() implies fields_view(rest@)[j] == s0[n + 1
                + j] by {
                assert(rest@[j] == before[j + 1]);
                assert(fields_view(before)[j + 1] == s0[n + 1 + j]);
            }
            assert(fields_view(rest@) =~= s0.subrange(n + 1, total as int));
            assert(decreases_to!(s0 => s0[n as int]));
            assert(decreases_to!(s0[n as int] => s0[n as int].1));
            assert(decreases_to!(s0 => v@));
        }
        merge_key_into(dest, k, v);
        n += 1;
        proof {
            assert(s0.subrange(0, n as int).drop_last() =~= s0.subrange(0, n - 1));
        }
    }
    proof {
        assert(s0.subrange(0, total as int) =~= s0);
        if d0.len() == 0 {
            lemma_merge_into_empty(s0);
            assert(d0 =~= Seq::<(Seq<char>, Val)>::empty());
        }
    }
}

/// A key that occurs in `m` has a first occurrence.
pub proof fn lemma_first_occurrence(m: Seq<(Seq<char>, Val)>, k: Seq<char>, j: int)
    requires
        0 <= j < m.len(),
        m[j].0 == k,
    ensures
        has_key(m, k),
    decreases m.len(),
{
    let init = m.drop_last();
    assert forall|jj: int| 0 <= jj < init.len() implies init[jj] == m[jj] by {}
    if j < m.len() - 1 {
        lemma_first_occurrence(init, k, j);
        let i = choose|i: int| first_at(init, k, i);
        assert(first_at(m, k, i));
    } else if exists|i: int| 0 <= i < init.len() && init[i].0 == k {
        let i = choose|i: int| 0 <= i < init.len() && init[i].0 == k;
        lemma_first_occurrence(init, k, i);
        let i2 = choose|i2: int| first_at(init, k, i2);
        assert(first_at(m, k, i2));
    } else {
        assert forall|jj: int| 0 <= jj < j implies m[jj].0 != k by {
            assert(init[jj] == m[jj]);
        }
        assert(first_at(m, k, j));
    }
}

/// Writing under a key keeps every present key at its position, and a new
/// key goes last: keys stay in order of first write.
pub proof fn lemma_merge_key_keeps_order(m: Seq<(Seq<char>, Val)>, k: Seq<char>, v: Val)
    ensures
        merge_key(m, k, v).len() == if has_key(m, k) {
            m.len()
        } else {
            m.len() + 1
        },
        forall|i: int| 0 <= i < m.len() ==> #[trigger] merge_key(m, k, v)[i].0 == m[i].0,
        !has_key(m, k) ==> merge_key(m, k, v).last() == (k, v),
{
}

/// Merging objects keeps every key of the destination at its position and
/// adds the new keys after them.
pub proof fn lemma_merge_all_keeps_order(d: Seq<(Seq<char>, Val)>, s: Seq<(Seq<char>, Val)>)
    ensures
        merge_all(d, s).len() >= d.len(),
        forall|i: int| 0 <= i < d.len() ==> #[trigger] merge_all(d, s)[i].0 == d[i].0,
    decreases s.len(),
{
    if s.len() > 0 {
        lemma_merge_all_keeps_order(d, s.drop_last());
        let prev = merge_all(d, s.drop_last());
        lemma_merge_key_keeps_order(prev, s.last().0, s.last().1);
        assert forall|i: int| 0 <= i < d.len() implies #[trigger] merge_all(d, s)[i].0 == d[i].0 by {
            assert(merge_key(prev, s.last().0, s.last().1)[i].0 == prev[i].0);
        }
    }
}

/// When the present value or the incoming one is not an object, the first
/// value written stays and the incoming one is dropped.
pub proof fn lemma_leaf_conflict_keeps_first(m: Seq<(Seq<char>, Val)>, k: Seq<char>, v: Val)
    requires
        has_key(m, k),
        !(m[key_index(m, k)].1 is Object && v is Object),
    ensures
        merge_key(m, k, v) == m,
{
}

/// Two object values written under one key end up merged, entry by entry,
/// under that key.
pub proof fn lemma_objects_merge(
    m: Seq<(Seq<char>, Val)>,
    k: Seq<char>,
    d: Seq<(Seq<char>, Val)>,
    s: Seq<(Seq<char>, Val)>,
)
    requires
        !has_key(m, k),
    ensures
        merge_key(merge_key(m, k, Val::Object(d)), k, Val::Object(s)) == m.push(
            (k, Val::Object(merge_all(d, s))),
        ),
{
    let m1 = m.push((k, Val::Object(d)));
    assert(merge_key(m, k, Val::Object(d)) == m1);
    assert forall|j: int| 0 <= j < m.len() implies m1[j].0 != k by {
        if m1[j].0 == k {
            lemma_first_occurrence(m, k, j);
        }
    }
    assert(first_at(m1, k, m.len() as int));
    assert(key_index(m1, k) == m.len());
}

/// Merging entries with unique keys into an empty object yields exactly
/// those entries.
pub proof fn lemma_merge_into_empty(s: Seq<(Seq<char>, Val)>)
    requires
        keys_unique(s),
    ensures
        merge_all(Seq::empty(), s) == s,
    decreases s.len(),
{
    if s.len() > 0 {
        let init = s.drop_last();
        assert(keys_unique(init));
        lemma_merge_into_empty(init);
        assert(!has_key(init, s.last().0)) by {
            if has_key(init, s.last().0) {
                let i = choose|i: int| first_at(init, s.last().0, i);
                assert(s[i].0 == s[s.len() - 1].0);
            }
        }
        assert(merge_all(Seq::empty(), s) == merge_key(
            merge_all(Seq::empty(), init),
            s.last().0,
            s.last().1,
        ));
        assert(merge_key(init, s.last().0, s.last().1) == init.push((s.last().0, s.last().1)));
        assert(init.push((s.last().0, s.last().1)) =~= s);
    } else {
        assert(s =~= Seq::<(Seq<char>, Val)>::empty());
    }
}

proof fn lemma_unique_index(m: Seq<(Seq<char>, Val)>, i: int)
    requires
        keys_unique(m),
        0 <= i < m.len(),
    ensures
        has_key(m, m[i].0),
        key_index(m, m[i].0) == i,
{
    assert(first_at(m, m[i].0, i));
    assert forall|j: int| first_at(m, m[i].0, j) implies j == i by {
        if j < i {
            assert(m[j].0 != m[i].0);
        }
    }
}

proof fn lemma_merge_self_prefix(m: Seq<(Seq<char>, Val)>, n: int)
    requires
        deep_unique(Val::Object(m)),
        0 <= n <= m.len(),
    ensures
        merge_all(m, m.subrange(0, n)) == m,
    decreases m, n,
{
    if n > 0 {
        let s = m.subrange(0, n);
        assert(s.drop_last() =~= m.subrange(0, n - 1));
        lemma_merge_self_prefix(m, n - 1);
        let (k, v) = m[n - 1];
        assert(s.last() == m[n - 1]);
        lemma_unique_index(m, n - 1);
        assert(merge_all(m, s) == merge_key(merge_all(m, m.subrange(0, n - 1)), k, v));
        assert(merge_all(m, s) == merge_key(m, k, v));
        match v {
            Val::Object(d) => {
                assert(deep_unique(m[n - 1].1));
                assert(decreases_to!(m => m[n - 1]));
                assert(decreases_to!(m[n - 1] => m[n - 1].1));
                assert(decreases_to!(m[n - 1].1 => d));
                lemma_merge_self_prefix(d, d.len() as int);
                assert(d.subrange(0, d.len() as int) =~= d);
                assert(m.update(n - 1, (k, Val::Object(d))) =~= m);
                assert(merge_key(m, k, v) == m.update(n - 1, (k, Val::Object(merge_all(d, d)))));
            },
            _ => {
                assert(merge_key(m, k, v) == m);
            },
        }
    } else {
        assert(m.subrange(0, 0) =~= Seq::<(Seq<char>, Val)>::empty());
    }
}

/// Merging an object whose nested keys are unique with itself changes
/// nothing.
pub proof fn lemma_merge_self(m: Seq<(Seq<char>, Val)>)
    requires
        deep_unique(Val::Object(m)),
    ensures
        merge_all(m, m) == m,
{
    lemma_merge_self_prefix(m, m.len() as int);
    assert(m.subrange(0, m.len() as int) =~= m);
}

} // verus!
