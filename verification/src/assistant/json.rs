//! JSON values as configuration edits see them, and the JSON merge patch (RFC 7396) applied to
//! a configuration in place.

use vstd::prelude::*;

use crate::text::str_eq;

verus! {

/// A JSON value. Numbers keep their text; object members keep their order.
#[derive(Debug, PartialEq, Eq)]
pub enum JsonValue {
    Null,
    Bool(bool),
    Number(String),
    String(String),
    Array(Vec<JsonValue>),
    Object(Vec<(String, JsonValue)>),
}

/// Model of a [`JsonValue`]: texts as character sequences.
pub enum Json {
    Null,
    Bool(bool),
    Number(Seq<char>),
    String(Seq<char>),
    Array(Seq<Json>),
    Object(Seq<(Seq<char>, Json)>),
}

/// The model of a JSON value.
pub open spec fn json_view(v: JsonValue) -> Json
    decreases v, 0int,
{
    match v {
        JsonValue::Null => Json::Null,
        JsonValue::Bool(b) => Json::Bool(b),
        JsonValue::Number(n) => Json::Number(n@),
        JsonValue::String(s) => Json::String(s@),
        JsonValue::Array(items) => Json::Array(items_view(items, items@.len() as int)),
        JsonValue::Object(members) => Json::Object(members_view(members, members@.len() as int)),
    }
}

/// Models of the first `n` items.
pub open spec fn items_view(items: Vec<JsonValue>, n: int) -> Seq<Json>
    decreases items, n,
{
    if n <= 0 || n > items@.len() {
        Seq::empty()
    } else {
        items_view(items, n - 1).push(json_view(items@[n - 1]))
    }
}

/// Models of the first `n` members.
pub open spec fn members_view(members: Vec<(String, JsonValue)>, n: int) -> Seq<(Seq<char>, Json)>
    decreases members, n,
{
    if n <= 0 || n > members@.len() {
        Seq::empty()
    } else {
        members_view(members, n - 1).push((members@[n - 1].0@, json_view(members@[n - 1].1)))
    }
}

impl View for JsonValue {
    type V = Json;

    open spec fn view(&self) -> Json {
        json_view(*self)
    }
}

/// Index of the first member named `k` at `i` or after, if any.
pub open spec fn member_index_from(members: Seq<(Seq<char>, Json)>, k: Seq<char>, i: int) -> Option<int>
    decreases members.len() - i,
{
    if i < 0 || i >= members.len() {
        None
    } else if members[i].0 == k {
        Some(i)
    } else {
        member_index_from(members, k, i + 1)
    }
}

/// Index of the first member named `k`, if any.
pub open spec fn member_index(members: Seq<(Seq<char>, Json)>, k: Seq<char>) -> Option<int> {
    member_index_from(members, k, 0)
}

proof fn lemma_member_index_from(members: Seq<(Seq<char>, Json)>, k: Seq<char>, i: int)
    requires
        0 <= i,
    ensures
        member_index_from(members, k, i) matches Some(j) ==> i <= j < members.len() && members[j].0 == k,
    decreases members.len() - i,
{
    if i < members.len() && members[i].0 != k {
        lemma_member_index_from(members, k, i + 1);
    }
}

/// The merge patch of `t` by `p` (RFC 7396): a patch that is not an object replaces the target;
/// an object patch applies its members in order to the target's members, or to an empty object
/// when the target is not one.
pub open spec fn merged(t: Json, p: Json) -> Json
    decreases p, 0int,
{
    match p {
        Json::Object(pm) => {
            let tm = match t {
                Json::Object(tm) => tm,
                _ => Seq::empty(),
            };
            Json::Object(merged_members(tm, pm, pm.len() as int))
        },
        _ => p,
    }
}

/// The members `tm` after the first `n` members of `pm` are applied.
pub open spec fn merged_members(tm: Seq<(Seq<char>, Json)>, pm: Seq<(Seq<char>, Json)>, n: int) -> Seq<
    (Seq<char>, Json),
>
    decreases pm, n,
{
    if n <= 0 || n > pm.len() {
        tm
    } else {
        member_applied(merged_members(tm, pm, n - 1), pm[n - 1].0, pm[n - 1].1)
    }
}

/// The members `acc` after the patch member (`k`, `v`): `null` removes the member named `k`;
/// otherwise the member named `k` gets the merge patch of its value by `v`, or, when there is none,
/// (`k`, the merge patch of `null` by `v`) is added at the end.
pub open spec fn member_applied(acc: Seq<(Seq<char>, Json)>, k: Seq<char>, v: Json) -> Seq<(Seq<char>, Json)>
    decreases v, 1int,
{
    match member_index(acc, k) {
        Some(i) => {
            if v is Null {
                acc.remove(i)
            } else {
                acc.update(i, (acc[i].0, merged(acc[i].1, v)))
            }
        },
        None => {
            if v is Null {
                acc
            } else {
                acc.push((k, merged(Json::Null, v)))
            }
        },
    }
}

proof fn lemma_items_view(items: Vec<JsonValue>, n: int)
    requires
        0 <= n <= items@.len(),
    ensures
        items_view(items, n).len() == n,
        forall|i: int| 0 <= i < n ==> #[trigger] items_view(items, n)[i] == json_view(items@[i]),
    decreases n,
{
    if n > 0 {
        lemma_items_view(items, n - 1);
    }
}

proof fn lemma_members_view(members: Vec<(String, JsonValue)>, n: int)
    requires
        0 <= n <= members@.len(),
    ensures
        members_view(members, n).len() == n,
        forall|i: int|
            0 <= i < n ==> #[trigger] members_view(members, n)[i] == (members@[i].0@, json_view(members@[i].1)),
    decreases n,
{
    if n > 0 {
        lemma_members_view(members, n - 1);
    }
}

/// The model of a member list.
pub open spec fn members_model(members: Vec<(String, JsonValue)>) -> Seq<(Seq<char>, Json)> {
    members_view(members, members@.len() as int)
}

/// Two member lists with the same member models have the same model.
proof fn lemma_members_model_ext(a: Vec<(String, JsonValue)>, s: Seq<(Seq<char>, Json)>)
    requires
        a@.len() == s.len(),
        forall|i: int| 0 <= i < s.len() ==> #[trigger] s[i] == (a@[i].0@, json_view(a@[i].1)),
    ensures
        members_model(a) == s,
{
    lemma_members_view(a, a@.len() as int);
    assert(members_model(a) =~= s);
}

/// A copy of `v`.
pub fn clone_json(v: &JsonValue) -> (r: JsonValue)
    ensures
        r@ == v@,
    decreases *v,
{
    match v {
        JsonValue::Null => JsonValue::Null,
        JsonValue::Bool(b) => JsonValue::Bool(*b),
        JsonValue::Number(n) => JsonValue::Number(n.clone()),
        JsonValue::String(s) => JsonValue::String(s.clone()),
        JsonValue::Array(items) => {
            let mut out: Vec<JsonValue> = Vec::new();
            let mut i: usize = 0;
            while i < items.len()
                invariant
                    i <= items@.len(),
                    *v == JsonValue::Array(*items),
                    out@.len() == i,
                    forall|j: int| 0 <= j < i ==> json_view(#[trigger] out@[j]) == json_view(items@[j]),
                decreases items.len() - i,
            {
                assert(decreases_to!(*v => (*v)->Array_0));
                assert(decreases_to!(*items => items@));
                assert(decreases_to!(items@ => items@[i as int]));
                assert(decreases_to!(*v => items@[i as int]));
                let c = clone_json(&items[i]);
                out.push(c);
                i = i + 1;
            }
            let r = JsonValue::Array(out);
            proof {
                lemma_items_view(out, out@.len() as int);
                lemma_items_view(*items, items@.len() as int);
                assert(items_view(out, out@.len() as int) =~= items_view(*items, items@.len() as int));
            }
            r
        },
        JsonValue::Object(members) => {
            let mut out: Vec<(String, JsonValue)> = Vec::new();
            let mut i: usize = 0;
            while i < members.len()
                invariant
                    i <= members@.len(),
                    *v == JsonValue::Object(*members),
                    out@.len() == i,
                    forall|j: int|
                        0 <= j < i ==> (#[trigger] out@[j]).0@ == members@[j].0@ && json_view(out@[j].1) == json_view(
                            members@[j].1,
                        ),
                decreases members.len() - i,
            {
                assert(decreases_to!(*v => (*v)->Object_0));
                assert(decreases_to!(*members => members@));
                assert(decreases_to!(members@ => members@[i as int]));
                assert(decreases_to!(members@[i as int] => members@[i as int].1));
                assert(decreases_to!(*v => members@[i as int].1));
                let value = clone_json(&members[i].1);
                out.push((members[i].0.clone(), value));
                i = i + 1;
            }
            let r = JsonValue::Object(out);
            proof {
                lemma_members_view(out, out@.len() as int);
                lemma_members_view(*members, members@.len() as int);
                assert(members_view(out, out@.len() as int) =~= members_view(*members, members@.len() as int));
            }
            r
        },
    }
}

/// Index of the first member named `k`.
fn find_member(members: &Vec<(String, JsonValue)>, k: &String) -> (r: Option<usize>)
    ensures
        match r {
            Some(i) => member_index(members_model(*members), k@) == Some(i as int),
            None => member_index(members_model(*members), k@) is None,
        },
{
    proof {
        lemma_members_view(*members, members@.len() as int);
    }
    let ghost m = members_model(*members);
    let mut i: usize = 0;
    while i < members.len()
        invariant
            i <= members@.len(),
            m == members_model(*members),
            m.len() == members@.len(),
            forall|j: int| 0 <= j < members@.len() ==> (#[trigger] m[j]).0 == members@[j].0@,
            member_index(m, k@) == member_index_from(m, k@, i as int),
        decreases members.len() - i,
    {
        if str_eq(members[i].0.as_str(), k.as_str()) {
            assert(m[i as int].0 == k@);
            return Some(i);
        }
        assert(m[i as int].0 != k@);
        i = i + 1;
    }
    None
}

impl JsonValue {
    /// Whether the value is `null`.
    pub fn is_null(&self) -> (r: bool)
        ensures
            r == (*self is Null),
            r == (self@ is Null),
    {
        match self {
            JsonValue::Null => true,
            _ => false,
        }
    }

    /// Whether the value is an object.
    pub fn is_object(&self) -> (r: bool)
        ensures
            r == (*self is Object),
            r == (self@ is Object),
    {
        match self {
            JsonValue::Object(_) => true,
            _ => false,
        }
    }
}

/// Applies one patch member (`k`, `v`) to the members `tm` (see [`member_applied`]).
#[verifier::rlimit(40)]
fn apply_member(tm: &mut Vec<(String, JsonValue)>, k: &String, v: &JsonValue, Ghost(p): Ghost<JsonValue>)
    requires
        decreases_to!(p => *v),
    ensures
        members_model(*final(tm)) == member_applied(members_model(*old(tm)), k@, v@),
    decreases p, 2int,
{
    let ghost old_tm = *tm;
    let ghost m = members_model(old_tm);
    proof {
        lemma_members_view(old_tm, old_tm@.len() as int);
    }
    match find_member(tm, k) {
        Some(i) => {
            proof {
                lemma_member_index_from(m, k@, 0);
            }
            if v.is_null() {
                tm.remove(i);
                proof {
                    lemma_members_model_ext(*tm, m.remove(i as int));
                }
            } else {
                let (key, mut value) = tm.remove(i);
                merge_json_rfc7396_in_place(&mut value, v);
                tm.insert(i, (key, value));
                proof {
                    lemma_members_model_ext(*tm, m.update(i as int, (m[i as int].0, merged(m[i as int].1, v@))));
                }
            }
        },
        None => {
            if !v.is_null() {
                let mut value = JsonValue::Null;
                merge_json_rfc7396_in_place(&mut value, v);
                tm.push((k.clone(), value));
                proof {
                    lemma_members_model_ext(*tm, m.push((k@, merged(Json::Null, v@))));
                }
            }
        },
    }
}

/// RFC 7396 JSON merge patch of `target` by `patch`, in place (see [`merged`]).
pub fn merge_json_rfc7396_in_place(target: &mut JsonValue, patch: &JsonValue)
    ensures
        final(target)@ == merged(old(target)@, patch@),
    decreases *patch, 3int,
{
    match patch {
        JsonValue::Object(pm) => {
            let mut t = JsonValue::Null;
            std::mem::swap(target, &mut t);
            let mut tm: Vec<(String, JsonValue)> = match t {
                JsonValue::Object(tm) => tm,
                _ => Vec::new(),
            };
            proof {
                if !(t is Object) {
                    lemma_members_model_ext(tm, Seq::empty());
                }
            }
            let ghost tm0 = members_model(tm);
            let ghost pmm = members_model(*pm);
            proof {
                lemma_members_view(*pm, pm@.len() as int);
            }
            let mut i: usize = 0;
            while i < pm.len()
                invariant
                    i <= pm@.len(),
                    *patch == JsonValue::Object(*pm),
                    pmm == members_model(*pm),
                    pmm.len() == pm@.len(),
                    forall|j: int| 0 <= j < pm@.len() ==> #[trigger] pmm[j] == (pm@[j].0@, json_view(pm@[j].1)),
                    members_model(tm) == merged_members(tm0, pmm, i as int),
                decreases pm.len() - i,
            {
                assert(decreases_to!(*patch => (*patch)->Object_0));
                assert(decreases_to!(*pm => pm@));
                assert(decreases_to!(pm@ => pm@[i as int]));
                assert(decreases_to!(pm@[i as int] => pm@[i as int].1));
                assert(decreases_to!(*patch => pm@[i as int].1));
                apply_member(&mut tm, &pm[i].0, &pm[i].1, Ghost(*patch));
                assert(pmm[i as int] == (pm@[i as int].0@, json_view(pm@[i as int].1)));
                i = i + 1;
            }
            *target = JsonValue::Object(tm);
        },
        _ => {
            *target = clone_json(patch);
        },
    }
}

/// No two members share a name (as in any JSON object).
pub open spec fn distinct_names(members: Seq<(Seq<char>, Json)>) -> bool {
    forall|i: int, j: int| 0 <= i < j < members.len() ==> (#[trigger] members[i]).0 != (#[trigger] members[j]).0
}

/// Some member is named `k`.
pub open spec fn has_name(members: Seq<(Seq<char>, Json)>, k: Seq<char>) -> bool {
    exists|i: int| 0 <= i < members.len() && (#[trigger] members[i]).0 == k
}

proof fn lemma_member_index_none(members: Seq<(Seq<char>, Json)>, k: Seq<char>, i: int)
    requires
        0 <= i,
        member_index_from(members, k, i) is None,
    ensures
        forall|j: int| i <= j < members.len() ==> (#[trigger] members[j]).0 != k,
    decreases members.len() - i,
{
    if i < members.len() {
        lemma_member_index_none(members, k, i + 1);
    }
}

/// Applying one member keeps names distinct and adds no name but its own.
proof fn lemma_member_applied_names(acc: Seq<(Seq<char>, Json)>, k: Seq<char>, v: Json, other: Seq<char>)
    requires
        distinct_names(acc),
    ensures
        distinct_names(member_applied(acc, k, v)),
        other != k ==> (has_name(member_applied(acc, k, v), other) <==> has_name(acc, other)),
        v is Null ==> !has_name(member_applied(acc, k, v), k),
{
    lemma_member_index_from(acc, k, 0);
    let r = member_applied(acc, k, v);
    match member_index(acc, k) {
        Some(i) => {
            if v is Null {
                assert forall|a: int, b: int| 0 <= a < b < r.len() implies (#[trigger] r[a]).0 != (#[trigger] r[b]).0 by {
                    let a2 = if a < i { a } else { a + 1 };
                    let b2 = if b < i { b } else { b + 1 };
                    assert(r[a] == acc[a2]);
                    assert(r[b] == acc[b2]);
                }
                if has_name(r, other) {
                    let j = choose|j: int| 0 <= j < r.len() && (#[trigger] r[j]).0 == other;
                    let j2 = if j < i { j } else { j + 1 };
                    assert(acc[j2].0 == other);
                }
                if other != k && has_name(acc, other) {
                    let j = choose|j: int| 0 <= j < acc.len() && (#[trigger] acc[j]).0 == other;
                    assert(j != i);
                    let j2 = if j < i { j } else { j - 1 };
                    assert(r[j2].0 == other);
                }
                if has_name(r, k) {
                    let j = choose|j: int| 0 <= j < r.len() && (#[trigger] r[j]).0 == k;
                    let j2 = if j < i { j } else { j + 1 };
                    assert(acc[j2].0 == k);
                    assert(acc[i].0 == k);
                }
            } else {
                assert forall|a: int, b: int| 0 <= a < b < r.len() implies (#[trigger] r[a]).0 != (#[trigger] r[b]).0 by {
                    assert(r[a].0 == acc[a].0);
                    assert(r[b].0 == acc[b].0);
                }
                if has_name(r, other) {
                    let j = choose|j: int| 0 <= j < r.len() && (#[trigger] r[j]).0 == other;
                    assert(acc[j].0 == other);
                }
                if has_name(acc, other) {
                    let j = choose|j: int| 0 <= j < acc.len() && (#[trigger] acc[j]).0 == other;
                    assert(r[j].0 == other);
                }
            }
        },
        None => {
            lemma_member_index_none(acc, k, 0);
            if !(v is Null) {
                assert forall|a: int, b: int| 0 <= a < b < r.len() implies (#[trigger] r[a]).0 != (#[trigger] r[b]).0 by {
                    if b == acc.len() {
                        assert(r[a] == acc[a]);
                    } else {
                        assert(r[a] == acc[a]);
                        assert(r[b] == acc[b]);
                    }
                }
                if has_name(r, other) && other != k {
                    let j = choose|j: int| 0 <= j < r.len() && (#[trigger] r[j]).0 == other;
                    assert(j < acc.len());
                    assert(acc[j].0 == other);
                }
                if has_name(acc, other) {
                    let j = choose|j: int| 0 <= j < acc.len() && (#[trigger] acc[j]).0 == other;
                    assert(r[j].0 == other);
                }
            }
        },
    }
}

/// Merging a patch object into an object target (both with distinct member names): every patch
/// member whose value is `null` leaves no member of its name, the other patch members leave a
/// member of their name, and the result still has distinct names.
pub proof fn lemma_merge_removes_null_members(tm: Seq<(Seq<char>, Json)>, pm: Seq<(Seq<char>, Json)>, n: int)
    requires
        distinct_names(tm),
        distinct_names(pm),
        0 <= n <= pm.len(),
    ensures
        distinct_names(merged_members(tm, pm, n)),
        forall|i: int| 0 <= i < n && (#[trigger] pm[i]).1 is Null ==> !has_name(merged_members(tm, pm, n), pm[i].0),
        forall|i: int| 0 <= i < n && !((#[trigger] pm[i]).1 is Null) ==> has_name(merged_members(tm, pm, n), pm[i].0),
    decreases n,
{
    if n > 0 {
        lemma_merge_removes_null_members(tm, pm, n - 1);
        let acc = merged_members(tm, pm, n - 1);
        let (k, v) = pm[n - 1];
        let r = merged_members(tm, pm, n);
        assert(r == member_applied(acc, k, v));
        lemma_member_applied_names(acc, k, v, k);
        assert forall|i: int| 0 <= i < n && (#[trigger] pm[i]).1 is Null implies !has_name(r, pm[i].0) by {
            if i < n - 1 {
                lemma_member_applied_names(acc, k, v, pm[i].0);
            }
        }
        assert forall|i: int| 0 <= i < n && !((#[trigger] pm[i]).1 is Null) implies has_name(r, pm[i].0) by {
            if i < n - 1 {
                lemma_member_applied_names(acc, k, v, pm[i].0);
            } else {
                lemma_member_index_from(acc, k, 0);
                match member_index(acc, k) {
                    Some(j) => {
                        assert(r[j].0 == k);
                    },
                    None => {
                        assert(r[acc.len() as int].0 == k);
                    },
                }
            }
        }
    }
}

/// The value of the first member named `k`, if any.
pub open spec fn member_value(members: Seq<(Seq<char>, Json)>, k: Seq<char>) -> Option<Json> {
    match member_index(members, k) {
        Some(i) => Some(members[i].1),
        None => None,
    }
}

/// What a patch member with value `v` leaves under its name when the target held `old` there:
/// nothing for `null`; otherwise the merge patch by `v` of the old value, or of `null` when there
/// was none.
pub open spec fn patched_value(old: Option<Json>, v: Json) -> Option<Json> {
    if v is Null {
        None
    } else {
        Some(
            merged(
                match old {
                    Some(o) => o,
                    None => Json::Null,
                },
                v,
            ),
        )
    }
}

proof fn lemma_member_index_from_at(ms: Seq<(Seq<char>, Json)>, x: Seq<char>, i: int, j: int)
    requires
        0 <= i <= j < ms.len(),
        ms[j].0 == x,
        forall|t: int| i <= t < j ==> (#[trigger] ms[t]).0 != x,
    ensures
        member_index_from(ms, x, i) == Some(j),
    decreases j - i,
{
    if i < j {
        lemma_member_index_from_at(ms, x, i + 1, j);
    }
}

/// In a member list with distinct names, the member named `x` is found where it stands.
proof fn lemma_member_index_at(ms: Seq<(Seq<char>, Json)>, x: Seq<char>, j: int)
    requires
        distinct_names(ms),
        0 <= j < ms.len(),
        ms[j].0 == x,
    ensures
        member_index(ms, x) == Some(j),
        member_value(ms, x) == Some(ms[j].1),
{
    assert forall|t: int| 0 <= t < j implies (#[trigger] ms[t]).0 != x by {
        assert(ms[t].0 != ms[j].0);
    }
    lemma_member_index_from_at(ms, x, 0, j);
}

/// A name that no member has is not found.
proof fn lemma_member_value_absent(ms: Seq<(Seq<char>, Json)>, x: Seq<char>)
    requires
        !has_name(ms, x),
    ensures
        member_value(ms, x) is None,
{
    lemma_member_index_from(ms, x, 0);
    if let Some(j) = member_index(ms, x) {
        assert(ms[j].0 == x);
    }
}

/// Applying the patch member (`k`, `v`) sets the value under `k` as [`patched_value`] says and
/// leaves the value under every other name alone.
proof fn lemma_member_applied_value(acc: Seq<(Seq<char>, Json)>, k: Seq<char>, v: Json, x: Seq<char>)
    requires
        distinct_names(acc),
    ensures
        member_value(member_applied(acc, k, v), x) == (if x == k {
            patched_value(member_value(acc, k), v)
        } else {
            member_value(acc, x)
        }),
{
    lemma_member_index_from(acc, k, 0);
    lemma_member_applied_names(acc, k, v, x);
    let r = member_applied(acc, k, v);
    lemma_member_index_from(acc, x, 0);
    match member_index(acc, k) {
        Some(i) => {
            assert(acc[i].0 == k);
            if x == k {
                if v is Null {
                    lemma_member_value_absent(r, k);
                } else {
                    lemma_member_index_at(r, k, i);
                    lemma_member_index_at(acc, k, i);
                }
            } else {
                match member_index(acc, x) {
                    Some(j) => {
                        assert(acc[j].0 == x);
                        assert(j != i);
                        lemma_member_index_at(acc, x, j);
                        if v is Null {
                            let j2 = if j < i { j } else { j - 1 };
                            assert(r[j2] == acc[j]);
                            lemma_member_index_at(r, x, j2);
                        } else {
                            assert(r[j] == acc[j]);
                            lemma_member_index_at(r, x, j);
                        }
                    },
                    None => {
                        lemma_member_index_none(acc, x, 0);
                        assert(!has_name(acc, x));
                        lemma_member_value_absent(r, x);
                    },
                }
            }
        },
        None => {
            lemma_member_index_none(acc, k, 0);
            if x == k {
                if !(v is Null) {
                    assert(r[acc.len() as int].0 == k);
                    lemma_member_index_at(r, k, acc.len() as int);
                }
            } else {
                match member_index(acc, x) {
                    Some(j) => {
                        lemma_member_index_at(acc, x, j);
                        if !(v is Null) {
                            assert(r[j] == acc[j]);
                            lemma_member_index_at(r, x, j);
                        }
                    },
                    None => {
                        lemma_member_index_none(acc, x, 0);
                        assert(!has_name(acc, x));
                        lemma_member_value_absent(r, x);
                    },
                }
            }
        },
    }
}

/// Merging a patch object into an object target (both with distinct member names), as values
/// under names: every name of the patch gets the [`patched_value`] of the target's value there,
/// and every other name keeps the target's value.
pub proof fn lemma_merge_member_values(tm: Seq<(Seq<char>, Json)>, pm: Seq<(Seq<char>, Json)>, n: int)
    requires
        distinct_names(tm),
        distinct_names(pm),
        0 <= n <= pm.len(),
    ensures
        forall|i: int|
            0 <= i < n ==> member_value(merged_members(tm, pm, n), (#[trigger] pm[i]).0) == patched_value(
                member_value(tm, pm[i].0),
                pm[i].1,
            ),
        forall|x: Seq<char>|
            (forall|i: int| 0 <= i < n ==> (#[trigger] pm[i]).0 != x) ==> #[trigger] member_value(
                merged_members(tm, pm, n),
                x,
            ) == member_value(tm, x),
    decreases n,
{
    if n > 0 {
        lemma_merge_member_values(tm, pm, n - 1);
        lemma_merge_removes_null_members(tm, pm, n - 1);
        let acc = merged_members(tm, pm, n - 1);
        let (k, v) = pm[n - 1];
        assert(merged_members(tm, pm, n) == member_applied(acc, k, v));
        assert forall|i: int| 0 <= i < n implies member_value(merged_members(tm, pm, n), (#[trigger] pm[i]).0)
            == patched_value(member_value(tm, pm[i].0), pm[i].1) by {
            lemma_member_applied_value(acc, k, v, pm[i].0);
            if i == n - 1 {
                assert forall|t: int| 0 <= t < n - 1 implies (#[trigger] pm[t]).0 != k by {
                    assert(pm[t].0 != pm[n - 1].0);
                }
            } else {
                assert(pm[i].0 != pm[n - 1].0);
            }
        }
        assert forall|x: Seq<char>| (forall|i: int| 0 <= i < n ==> (#[trigger] pm[i]).0 != x) implies
            #[trigger] member_value(merged_members(tm, pm, n), x) == member_value(tm, x) by {
            lemma_member_applied_value(acc, k, v, x);
            assert(pm[n - 1].0 != x);
            assert forall|i: int| 0 <= i < n - 1 implies (#[trigger] pm[i]).0 != x by {
                assert(pm[i].0 != x);
            }
        }
    }
}

/// Every object inside `j` (itself included, arrays not entered) has distinct member names.
pub open spec fn well_named(j: Json) -> bool
    decreases j, 0int,
{
    match j {
        Json::Object(ms) => distinct_names(ms) && members_well_named(ms, ms.len() as int),
        _ => true,
    }
}

/// The values of the first `n` members are [`well_named`].
pub open spec fn members_well_named(ms: Seq<(Seq<char>, Json)>, n: int) -> bool
    decreases ms, n,
{
    if n <= 0 || n > ms.len() {
        true
    } else {
        members_well_named(ms, n - 1) && well_named(ms[n - 1].1)
    }
}

proof fn lemma_members_well_named(ms: Seq<(Seq<char>, Json)>, n: int, i: int)
    requires
        members_well_named(ms, n),
        0 <= i < n <= ms.len(),
    ensures
        well_named(ms[i].1),
    decreases n,
{
    if i < n - 1 {
        lemma_members_well_named(ms, n - 1, i);
    }
}

/// Merging `p` into `t` twice gives what merging it once gives, when every object inside both has
/// distinct member names.
pub proof fn lemma_merge_idempotent(t: Json, p: Json)
    requires
        well_named(t),
        well_named(p),
    ensures
        merged(merged(t, p), p) == merged(t, p),
    decreases p,
{
    if let Json::Object(pm) = p {
        let tm = match t {
            Json::Object(tm) => tm,
            _ => Seq::empty(),
        };
        lemma_merge_removes_null_members(tm, pm, pm.len() as int);
        lemma_merge_member_values(tm, pm, pm.len() as int);
        let tm2 = merged_members(tm, pm, pm.len() as int);
        lemma_merged_members_again(tm, p, pm, tm2, pm.len() as int);
    }
}

proof fn lemma_merged_members_again(
    tm: Seq<(Seq<char>, Json)>,
    p: Json,
    pm: Seq<(Seq<char>, Json)>,
    tm2: Seq<(Seq<char>, Json)>,
    n: int,
)
    requires
        p == Json::Object(pm),
        distinct_names(tm),
        members_well_named(tm, tm.len() as int),
        well_named(p),
        tm2 == merged_members(tm, pm, pm.len() as int),
        distinct_names(tm2),
        forall|i: int|
            0 <= i < pm.len() ==> member_value(tm2, (#[trigger] pm[i]).0) == patched_value(
                member_value(tm, pm[i].0),
                pm[i].1,
            ),
        0 <= n <= pm.len(),
    ensures
        merged_members(tm2, pm, n) == tm2,
    decreases p, n,
{
    if n > 0 {
        lemma_merged_members_again(tm, p, pm, tm2, n - 1);
        let (k, v) = pm[n - 1];
        assert(merged_members(tm2, pm, n) == member_applied(tm2, k, v));
        assert(member_value(tm2, pm[n - 1].0) == patched_value(member_value(tm, k), v));
        lemma_member_index_from(tm2, k, 0);
        if !(v is Null) {
            let i = member_index(tm2, k)->Some_0;
            assert(tm2[i].0 == k);
            assert(decreases_to!(p => pm));
            assert(decreases_to!(pm => pm[n - 1]));
            assert(decreases_to!(pm[n - 1] => pm[n - 1].1));
            lemma_members_well_named(pm, pm.len() as int, n - 1);
            match member_value(tm, k) {
                Some(o) => {
                    lemma_member_index_from(tm, k, 0);
                    let j = member_index(tm, k)->Some_0;
                    assert(o == tm[j].1);
                    lemma_members_well_named(tm, tm.len() as int, j);
                    lemma_merge_idempotent(o, v);
                },
                None => {
                    lemma_merge_idempotent(Json::Null, v);
                },
            }
            assert(member_applied(tm2, k, v) =~= tm2);
        }
    }
}

} // verus!
