//! The scoped try/catch expression: run a fallible try region; on success
//! yield its value, on failure bind the error and yield the catch region's
//! value instead. The failure never escapes past the expression itself.

use vstd::prelude::*;

verus! {

/// What one evaluation of the try/catch expression may observe and yield:
/// `r` is an outcome the try region can produce; on success the expression's
/// value is exactly the region's value, and on failure it is a value the
/// catch region can produce for the captured error.
pub open spec fn try_outcome<V, E, TB, CB>(try_body: TB, catch_body: CB, r: Result<V, E>, v: V) -> bool
    where TB: FnOnce() -> Result<V, E>, CB: FnOnce(E) -> V,
{
    call_ensures(try_body, (), r) && match r {
        Result::Ok(val) => v == val,
        Result::Err(e) => call_ensures(catch_body, (e,), v),
    }
}

/// The scoped try/catch expression. The try region is a zero-argument
/// fallible unit invoked immediately, so an early-exit-on-error operator
/// inside it escapes only as far as this boundary; on failure the error is
/// bound and the catch region produces the value instead.
pub fn try_<V, E, TB, CB>(try_body: TB, catch_body: CB) -> (v: V)
    where TB: FnOnce() -> Result<V, E>, CB: FnOnce(E) -> V,
    requires
        call_requires(try_body, ()),
        forall|e: E| #[trigger] call_ensures(try_body, (), Result::<V, E>::Err(e))
            ==> call_requires(catch_body, (e,)),
    ensures
        exists|r: Result<V, E>| #[trigger] try_outcome(try_body, catch_body, r, v),
{
    let ghost tb = try_body;
    let ghost cb = catch_body;
    let r = try_body();
    let ghost gr = r;
    match r {
        Result::Ok(val) => {
            proof {
                assert(try_outcome(tb, cb, gr, val));
            }
            val
        },
        Result::Err(e) => {
            let out = catch_body(e);
            proof {
                assert(try_outcome(tb, cb, gr, out));
            }
            out
        },
    }
}

/// A try region that cannot fail yields exactly its own final value: the
/// value of the whole expression is one the try region itself produced, and
/// the catch region contributes nothing to it.
pub proof fn lemma_try_without_failure<V, E, TB, CB>(try_body: TB, catch_body: CB, v: V)
    where TB: FnOnce() -> Result<V, E>, CB: FnOnce(E) -> V,
    requires
        exists|r: Result<V, E>| #[trigger] try_outcome(try_body, catch_body, r, v),
        forall|e: E| !call_ensures(try_body, (), Result::<V, E>::Err(e)),
    ensures
        call_ensures(try_body, (), Result::<V, E>::Ok(v)),
{
    let r = choose|r: Result<V, E>| try_outcome(try_body, catch_body, r, v);
    match r {
        Result::Ok(val) => {
            assert(v == val);
        },
        Result::Err(e) => {
            assert(call_ensures(try_body, (), Result::<V, E>::Err(e)));
            assert(false);
        },
    }
}

/// A try region that fails with a fixed error hands exactly that error to the
/// catch region, and the whole expression yields a value the catch region can
/// produce for it.
pub proof fn lemma_try_with_failure<V, E, TB, CB>(try_body: TB, catch_body: CB, v: V, e: E)
    where TB: FnOnce() -> Result<V, E>, CB: FnOnce(E) -> V,
    requires
        exists|r: Result<V, E>| #[trigger] try_outcome(try_body, catch_body, r, v),
        forall|r: Result<V, E>| #[trigger] call_ensures(try_body, (), r) ==> r == Result::<V, E>::Err(e),
    ensures
        call_ensures(catch_body, (e,), v),
{
    let r = choose|r: Result<V, E>| try_outcome(try_body, catch_body, r, v);
    assert(r == Result::<V, E>::Err(e));
}

} // verus!
