//! Defaults of the viewer configuration file (`active_variant` and `ibl_tier`) and the choice of
//! the variant whose settings apply.

use vstd::prelude::*;

use crate::text::{occurs_before, position_of};

verus! {

/// Name of the variant used when the configuration names none: `"default"`.
pub fn default_active_variant() -> (r: String)
    ensures
        r@ == "default"@,
{
    String::from_str("default")
}

/// IBL tier of a variant that names none: `"max"`.
pub fn default_ibl_tier() -> (r: String)
    ensures
        r@ == "max"@,
{
    String::from_str("max")
}

/// Index in `names` of the first name equal to `s`, if any.
pub open spec fn first_index(names: Seq<String>, s: Seq<char>) -> Option<int> {
    if occurs_before(names, names.len() as int, s) {
        Some(choose|i: int| 0 <= i < names.len() && names[i]@ == s && !occurs_before(names, i, s))
    } else {
        None
    }
}

/// Which variant applies: the one named `active`, else the one named `"default"`, else none
/// (the caller then uses the built-in defaults).
pub open spec fn active_variant_choice(names: Seq<String>, active: Seq<char>) -> Option<int> {
    if first_index(names, active) is Some {
        first_index(names, active)
    } else {
        first_index(names, "default"@)
    }
}

proof fn lemma_first_index(names: Seq<String>, s: Seq<char>, i: int)
    requires
        0 <= i < names.len(),
        names[i]@ == s,
        !occurs_before(names, i, s),
    ensures
        first_index(names, s) == Some(i),
{
    assert(occurs_before(names, names.len() as int, s));
    let k = choose|k: int| 0 <= k < names.len() && names[k]@ == s && !occurs_before(names, k, s);
    if k < i {
        assert(occurs_before(names, i, s));
    }
    if i < k {
        assert(occurs_before(names, k, s));
    }
}

/// Index, among the variant names of a configuration, of the variant whose settings apply.
pub fn active_variant_index(names: &Vec<String>, active: &str) -> (r: Option<usize>)
    ensures
        r matches Some(i) ==> active_variant_choice(names@, active@) == Some(i as int),
        r is None ==> active_variant_choice(names@, active@) is None,
{
    match position_of(names, active) {
        Some(i) => {
            proof { lemma_first_index(names@, active@, i as int); }
            Some(i)
        },
        None => {
            let d = position_of(names, "default");
            proof {
                if let Some(j) = d {
                    lemma_first_index(names@, "default"@, j as int);
                }
            }
            d
        },
    }
}

proof fn lemma_first_occurrence(names: Seq<String>, s: Seq<char>, i: int)
    requires
        0 <= i < names.len(),
        names[i]@ == s,
    ensures
        first_index(names, s) is Some,
        0 <= first_index(names, s)->0 < names.len(),
        names[first_index(names, s)->0]@ == s,
        forall|j: int| 0 <= j < first_index(names, s)->0 ==> (#[trigger] names[j])@ != s,
    decreases i,
{
    if occurs_before(names, i, s) {
        let j = choose|j: int| 0 <= j < i && j < names.len() && (#[trigger] names[j])@ == s;
        lemma_first_occurrence(names, s, j);
    } else {
        lemma_first_index(names, s, i);
        assert forall|j: int| 0 <= j < i implies (#[trigger] names[j])@ != s by {
            if names[j]@ == s {
                assert(occurs_before(names, i, s));
            }
        }
    }
}

/// The variant that applies is the first one named `active` when there is one; otherwise the
/// first one named `default` when there is one; otherwise none.
pub proof fn lemma_active_variant_choice(names: Seq<String>, active: Seq<char>)
    ensures
        (exists|i: int| 0 <= i < names.len() && (#[trigger] names[i])@ == active) ==> ({
            let c = active_variant_choice(names, active);
            &&& c is Some
            &&& 0 <= c->0 < names.len() && names[c->0]@ == active
            &&& forall|j: int| 0 <= j < c->0 ==> (#[trigger] names[j])@ != active
        }),
        !(exists|i: int| 0 <= i < names.len() && (#[trigger] names[i])@ == active) && (exists|i: int|
            0 <= i < names.len() && (#[trigger] names[i])@ == "default"@) ==> ({
            let c = active_variant_choice(names, active);
            &&& c is Some
            &&& 0 <= c->0 < names.len() && names[c->0]@ == "default"@
            &&& forall|j: int| 0 <= j < c->0 ==> (#[trigger] names[j])@ != "default"@
        }),
        !(exists|i: int| 0 <= i < names.len() && (#[trigger] names[i])@ == active) && !(exists|i: int|
            0 <= i < names.len() && (#[trigger] names[i])@ == "default"@) ==> active_variant_choice(names, active) is None,
{
    if exists|i: int| 0 <= i < names.len() && (#[trigger] names[i])@ == active {
        let i = choose|i: int| 0 <= i < names.len() && (#[trigger] names[i])@ == active;
        lemma_first_occurrence(names, active, i);
    } else {
        assert(!occurs_before(names, names.len() as int, active));
        if exists|i: int| 0 <= i < names.len() && (#[trigger] names[i])@ == "default"@ {
            let i = choose|i: int| 0 <= i < names.len() && (#[trigger] names[i])@ == "default"@;
            lemma_first_occurrence(names, "default"@, i);
        } else {
            assert(!occurs_before(names, names.len() as int, "default"@));
        }
    }
}

} // verus!
