//! "First failure" over an ordered list of checks, the shape shared by every validator of the crate.

use vstd::prelude::*;

verus! {

/// Outcome of running the checks `f(0)`, `f(1)`, ..., `f(n - 1)` in order and stopping at the first failure.
pub open spec fn first_failure<E>(n: nat, f: spec_fn(int) -> Result<(), E>) -> Result<(), E>
    decreases n,
{
    if n == 0 {
        Ok(())
    } else {
        match first_failure((n - 1) as nat, f) {
            Ok(_) => f(n - 1),
            Err(e) => Err(e),
        }
    }
}

/// Runs `a`, then `b` when `a` succeeded.
pub open spec fn then_check<E>(a: Result<(), E>, b: Result<(), E>) -> Result<(), E> {
    match a {
        Ok(_) => b,
        Err(e) => Err(e),
    }
}

/// Once a failure has been met, the checks that follow do not change the outcome.
pub proof fn lemma_first_failure_stable<E>(k: nat, m: nat, f: spec_fn(int) -> Result<(), E>)
    requires
        k <= m,
        first_failure(k, f) is Err,
    ensures
        first_failure(m, f) == first_failure(k, f),
    decreases m - k,
{
    if k < m {
        lemma_first_failure_stable(k, (m - 1) as nat, f);
    }
}

/// All checks below `n` pass exactly when the combined outcome is a success.
pub proof fn lemma_first_failure_ok<E>(n: nat, f: spec_fn(int) -> Result<(), E>)
    ensures
        first_failure(n, f) is Ok <==> (forall|i: int| 0 <= i < n ==> (#[trigger] f(i)) is Ok),
    decreases n,
{
    if n > 0 {
        lemma_first_failure_ok((n - 1) as nat, f);
    }
}

/// Two check lists that agree below `n` have the same outcome.
pub proof fn lemma_first_failure_ext<E>(
    n: nat,
    f: spec_fn(int) -> Result<(), E>,
    g: spec_fn(int) -> Result<(), E>,
)
    requires
        forall|i: int| 0 <= i < n ==> #[trigger] f(i) == g(i),
    ensures
        first_failure(n, f) == first_failure(n, g),
    decreases n,
{
    if n > 0 {
        lemma_first_failure_ext((n - 1) as nat, f, g);
    }
}

/// When every check before `i` passes and check `i` fails, the outcome is check `i`'s failure.
pub proof fn lemma_first_failure_at<E>(n: nat, f: spec_fn(int) -> Result<(), E>, i: int)
    requires
        0 <= i < n,
        forall|j: int| 0 <= j < i ==> (#[trigger] f(j)) is Ok,
        f(i) is Err,
    ensures
        first_failure(n, f) == f(i),
{
    lemma_first_failure_ok(i as nat, f);
    assert(first_failure((i + 1) as nat, f) == f(i));
    lemma_first_failure_stable((i + 1) as nat, n, f);
}

} // verus!
