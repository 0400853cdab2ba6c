//! The lifecycle controller: a builder that wires an optional install step, an
//! optional error-transform hook and an optional exit hook around a program's
//! main routine, and runs the phases in one well-defined order.

use vstd::prelude::*;

verus! {

/// Which of the two fallible phases of an execution an event belongs to.
pub enum Phase {
    Install,
    Main,
}

/// One observable step of an execution: a phase running with its raw outcome,
/// the error-transform hook turning one error into another, or the exit hook
/// running.
pub enum LifeEvent<E> {
    Run(Phase, Result<(), E>),
    Transform(E, E),
    ExitHook,
}

/// The error-transform hook turns `e0` into `e1`: when a hook is configured,
/// `e1` is a value it can return for `e0`; when none is, the error passes
/// through unchanged.
pub open spec fn transforms_to<E, TF: Fn(E) -> E>(on_error: Option<TF>, e0: E, e1: E) -> bool {
    match on_error {
        Option::Some(t) => call_ensures(t, (e0,), e1),
        Option::None => e1 == e0,
    }
}

/// A phase whose raw outcome is `out` settles to `settled`: success stays
/// success, and a failure's error goes through the error-transform hook.
pub open spec fn settles_to<E, TF: Fn(E) -> E>(
    on_error: Option<TF>,
    out: Result<(), E>,
    settled: Result<(), E>,
) -> bool {
    match out {
        Result::Ok(u) => settled == Result::<(), E>::Ok(()),
        Result::Err(e) => match settled {
            Result::Ok(u2) => false,
            Result::Err(e1) => transforms_to(on_error, e, e1),
        },
    }
}

/// The events of one phase, in order: the phase runs with raw outcome `out`;
/// if it failed and a transform hook is configured, the transform turns the
/// raw error into the settled one; then the exit hook runs if configured.
pub open spec fn phase_trace<E>(
    phase: Phase,
    out: Result<(), E>,
    settled: Result<(), E>,
    has_transform: bool,
    has_exit: bool,
) -> Seq<LifeEvent<E>> {
    let run = seq![LifeEvent::Run(phase, out)];
    let mid: Seq<LifeEvent<E>> = if has_transform {
        match (out, settled) {
            (Result::Err(e), Result::Err(e1)) => seq![LifeEvent::Transform(e, e1)],
            _ => seq![],
        }
    } else {
        seq![]
    };
    let end: Seq<LifeEvent<E>> = if has_exit {
        seq![LifeEvent::ExitHook]
    } else {
        seq![]
    };
    run + mid + end
}

/// A phase body observed outcome `r`, which settles to `s` through the
/// error-transform hook.
pub open spec fn phase_obs<E, BF: Fn() -> Result<(), E>, TF: Fn(E) -> E>(
    body: BF,
    on_error: Option<TF>,
    r: Result<(), E>,
    s: Result<(), E>,
) -> bool {
    call_ensures(body, (), r) && settles_to(on_error, r, s)
}

/// The main phase of an execution whose events so far are `prefix`: the main
/// routine runs with some raw outcome, which settles through the
/// error-transform hook; the phase's events follow `prefix`, and the settled
/// outcome is the execution's result.
pub open spec fn main_behavior<E, IF, TF, XF, MF>(
    t: Terminate<E, IF, TF, XF>,
    main: MF,
    prefix: Seq<LifeEvent<E>>,
    tr: Seq<LifeEvent<E>>,
    result: Result<(), E>,
) -> bool where
    IF: Fn() -> Result<(), E>,
    TF: Fn(E) -> E,
    XF: Fn(),
    MF: Fn() -> Result<(), E>,
{
    exists|r1: Result<(), E>, s1: Result<(), E>|
        #[trigger] phase_obs(main, t.spec_on_error(), r1, s1)
        && tr == prefix + phase_trace(
            Phase::Main,
            r1,
            s1,
            t.spec_on_error() is Some,
            t.spec_at_exit() is Some,
        )
        && result == s1
}

/// One whole execution of the controller: when an install routine is
/// configured it runs first, and a settled install failure ends the
/// execution with that error and no main phase; otherwise the main phase
/// runs. `tr` lists the events of the execution in order and `result` is
/// what the execution returns.
pub open spec fn execute_behavior<E, IF, TF, XF, MF>(
    t: Terminate<E, IF, TF, XF>,
    main: MF,
    tr: Seq<LifeEvent<E>>,
    result: Result<(), E>,
) -> bool where
    IF: Fn() -> Result<(), E>,
    TF: Fn(E) -> E,
    XF: Fn(),
    MF: Fn() -> Result<(), E>,
{
    match t.spec_install() {
        Option::Some(f) => exists|r0: Result<(), E>, s0: Result<(), E>|
            #[trigger] phase_obs(f, t.spec_on_error(), r0, s0)
            && install_then(t, main, r0, s0, tr, result),
        Option::None => main_behavior(t, main, Seq::empty(), tr, result),
    }
}

/// What follows an install phase with raw outcome `r0` settled to `s0`: a
/// settled failure is returned at once and the trace holds the install
/// phase's events alone; a settled success hands over to the main phase,
/// whose events follow the install phase's.
pub open spec fn install_then<E, IF, TF, XF, MF>(
    t: Terminate<E, IF, TF, XF>,
    main: MF,
    r0: Result<(), E>,
    s0: Result<(), E>,
    tr: Seq<LifeEvent<E>>,
    result: Result<(), E>,
) -> bool where
    IF: Fn() -> Result<(), E>,
    TF: Fn(E) -> E,
    XF: Fn(),
    MF: Fn() -> Result<(), E>,
{
    let itr = phase_trace(
        Phase::Install,
        r0,
        s0,
        t.spec_on_error() is Some,
        t.spec_at_exit() is Some,
    );
    match s0 {
        Result::Err(e) => tr == itr && result == s0,
        Result::Ok(u) => main_behavior(t, main, itr, tr, result),
    }
}

/// How many events of `tr` are runs of the install phase.
pub open spec fn install_runs<E>(tr: Seq<LifeEvent<E>>) -> nat
    decreases tr.len(),
{
    if tr.len() == 0 {
        0
    } else {
        (if tr[0] matches LifeEvent::Run(Phase::Install, _) {
            1nat
        } else {
            0nat
        }) + install_runs(tr.drop_first())
    }
}

/// How many events of `tr` are runs of the main phase.
pub open spec fn main_runs<E>(tr: Seq<LifeEvent<E>>) -> nat
    decreases tr.len(),
{
    if tr.len() == 0 {
        0
    } else {
        (if tr[0] matches LifeEvent::Run(Phase::Main, _) {
            1nat
        } else {
            0nat
        }) + main_runs(tr.drop_first())
    }
}

/// How many events of `tr` are runs of the exit hook.
pub open spec fn exit_hook_runs<E>(tr: Seq<LifeEvent<E>>) -> nat
    decreases tr.len(),
{
    if tr.len() == 0 {
        0
    } else {
        (if tr[0] is ExitHook {
            1nat
        } else {
            0nat
        }) + exit_hook_runs(tr.drop_first())
    }
}

/// How many events of `tr` are runs of the error-transform hook.
pub open spec fn transform_runs<E>(tr: Seq<LifeEvent<E>>) -> nat
    decreases tr.len(),
{
    if tr.len() == 0 {
        0
    } else {
        (if tr[0] is Transform {
            1nat
        } else {
            0nat
        }) + transform_runs(tr.drop_first())
    }
}

/// Every event counter adds up over concatenation.
pub proof fn lemma_event_counts_add<E>(a: Seq<LifeEvent<E>>, b: Seq<LifeEvent<E>>)
    ensures
        install_runs(a + b) == install_runs(a) + install_runs(b),
        main_runs(a + b) == main_runs(a) + main_runs(b),
        exit_hook_runs(a + b) == exit_hook_runs(a) + exit_hook_runs(b),
        transform_runs(a + b) == transform_runs(a) + transform_runs(b),
    decreases a.len(),
{
    if a.len() == 0 {
        assert(a + b =~= b);
    } else {
        lemma_event_counts_add(a.drop_first(), b);
        assert((a + b).drop_first() =~= a.drop_first() + b);
        assert((a + b)[0] == a[0]);
    }
}

/// The event counters on a trace of one event.
pub proof fn lemma_event_counts_one<E>(ev: LifeEvent<E>)
    ensures
        install_runs(seq![ev]) == (if ev matches LifeEvent::Run(Phase::Install, _) {
            1nat
        } else {
            0nat
        }),
        main_runs(seq![ev]) == (if ev matches LifeEvent::Run(Phase::Main, _) {
            1nat
        } else {
            0nat
        }),
        exit_hook_runs(seq![ev]) == (if ev is ExitHook {
            1nat
        } else {
            0nat
        }),
        transform_runs(seq![ev]) == (if ev is Transform {
            1nat
        } else {
            0nat
        }),
{
    assert(seq![ev].drop_first() =~= Seq::<LifeEvent<E>>::empty());
    assert(install_runs(Seq::<LifeEvent<E>>::empty()) == 0);
    assert(main_runs(Seq::<LifeEvent<E>>::empty()) == 0);
    assert(exit_hook_runs(Seq::<LifeEvent<E>>::empty()) == 0);
    assert(transform_runs(Seq::<LifeEvent<E>>::empty()) == 0);
}

/// What one phase's events count: one run of its own phase and none of the
/// other, one exit-hook run exactly when an exit hook is configured, and one
/// transform exactly when a transform hook is configured and the phase
/// failed.
pub proof fn lemma_phase_trace_counts<E>(
    phase: Phase,
    out: Result<(), E>,
    settled: Result<(), E>,
    ht: bool,
    hx: bool,
)
    ensures
        install_runs(phase_trace(phase, out, settled, ht, hx)) == (if phase is Install {
            1nat
        } else {
            0nat
        }),
        main_runs(phase_trace(phase, out, settled, ht, hx)) == (if phase is Main {
            1nat
        } else {
            0nat
        }),
        exit_hook_runs(phase_trace(phase, out, settled, ht, hx)) == (if hx {
            1nat
        } else {
            0nat
        }),
        transform_runs(phase_trace(phase, out, settled, ht, hx)) == (
        if ht && out is Err && settled is Err {
            1nat
        } else {
            0nat
        }),
{
    let run = seq![LifeEvent::Run(phase, out)];
    let mid: Seq<LifeEvent<E>> = if ht {
        match (out, settled) {
            (Result::Err(e), Result::Err(e1)) => seq![LifeEvent::Transform(e, e1)],
            _ => seq![],
        }
    } else {
        seq![]
    };
    let end: Seq<LifeEvent<E>> = if hx {
        seq![LifeEvent::ExitHook]
    } else {
        seq![]
    };
    assert(phase_trace(phase, out, settled, ht, hx) == run + mid + end);
    lemma_event_counts_add(run, mid);
    lemma_event_counts_add(run + mid, end);
    lemma_event_counts_one(LifeEvent::Run(phase, out));
    assert(install_runs(Seq::<LifeEvent<E>>::empty()) == 0);
    assert(main_runs(Seq::<LifeEvent<E>>::empty()) == 0);
    assert(exit_hook_runs(Seq::<LifeEvent<E>>::empty()) == 0);
    assert(transform_runs(Seq::<LifeEvent<E>>::empty()) == 0);
    if ht {
        match (out, settled) {
            (Result::Err(e), Result::Err(e1)) => {
                lemma_event_counts_one(LifeEvent::Transform(e, e1));
            },
            _ => {},
        }
    }
    if hx {
        lemma_event_counts_one(LifeEvent::<E>::ExitHook);
    }
}

/// Settle one phase's raw outcome: a failure's error goes through the
/// error-transform hook when one is configured; success passes through.
fn settle_phase<E, TF: Fn(E) -> E>(on_error: &Option<TF>, out: Result<(), E>) -> (settled: Result<
    (),
    E,
>)
    requires
        out matches Result::Err(e) ==> ((*on_error) matches Option::Some(t) ==> call_requires(
            t,
            (e,),
        )),
    ensures
        settles_to(*on_error, out, settled),
{
    match out {
        Result::Ok(u) => Result::Ok(u),
        Result::Err(e) => match on_error {
            Option::Some(t) => Result::Err(t(e)),
            Option::None => Result::Err(e),
        },
    }
}

/// Run the exit hook if one is configured.
fn run_exit_hook<XF: Fn()>(at_exit: &Option<XF>)
    requires
        (*at_exit) matches Option::Some(x) ==> call_requires(x, ()),
{
    match at_exit {
        Option::Some(x) => {
            x();
        },
        Option::None => {},
    }
}

/// The lifecycle controller. Hooks are optional and set at most once each by
/// the builder methods; `execute` consumes the configuration and runs the
/// phases.
#[verifier::reject_recursive_types(E)]
pub struct Terminate<E, IF, TF, XF> where
    IF: Fn() -> Result<(), E>,
    TF: Fn(E) -> E,
    XF: Fn(),
 {
    install: Option<IF>,
    on_error: Option<TF>,
    at_exit: Option<XF>,
    error: core::marker::PhantomData<E>,
}

impl<E, IF, TF, XF> Terminate<E, IF, TF, XF> where
    IF: Fn() -> Result<(), E>,
    TF: Fn(E) -> E,
    XF: Fn(),
 {
    /// The configured install routine, if any.
    pub closed spec fn spec_install(self) -> Option<IF> {
        self.install
    }

    /// The configured error-transform hook, if any.
    pub closed spec fn spec_on_error(self) -> Option<TF> {
        self.on_error
    }

    /// The configured exit hook, if any.
    pub closed spec fn spec_at_exit(self) -> Option<XF> {
        self.at_exit
    }

    /// Create a controller with no install routine and no hooks configured.
    pub fn new() -> (t: Self)
        ensures
            t.spec_install() is None,
            t.spec_on_error() is None,
            t.spec_at_exit() is None,
    {
        Terminate {
            on_error: None,
            at_exit: None,
            install: None,
            error: core::marker::PhantomData,
        }
    }

    /// Configure the install routine, run first when the program executes.
    pub fn install(self, install: IF) -> (t: Self)
        ensures
            t.spec_install() == Some(install),
            t.spec_on_error() == self.spec_on_error(),
            t.spec_at_exit() == self.spec_at_exit(),
    {
        Terminate { install: Some(install), ..self }
    }

    /// Configure the error-transform hook, applied to any error the install
    /// routine or the main routine produces.
    pub fn on_error(self, on_error: TF) -> (t: Self)
        ensures
            t.spec_on_error() == Some(on_error),
            t.spec_install() == self.spec_install(),
            t.spec_at_exit() == self.spec_at_exit(),
    {
        Terminate { on_error: Some(on_error), ..self }
    }

    /// Configure the exit hook, run once at the end of every phase that ran,
    /// whatever that phase's outcome.
    pub fn at_exit(self, at_exit: XF) -> (t: Self)
        ensures
            t.spec_at_exit() == Some(at_exit),
            t.spec_install() == self.spec_install(),
            t.spec_on_error() == self.spec_on_error(),
    {
        Terminate { at_exit: Some(at_exit), ..self }
    }

    /// Execute the program: run the install routine first when one is
    /// configured, settle its failure through the error-transform hook, run
    /// the exit hook, and stop there on failure; otherwise run the main
    /// routine, settle its failure the same way, run the exit hook again,
    /// and return the settled outcome.
    pub fn execute<MF: Fn() -> Result<(), E>>(self, main: MF) -> (result: Result<(), E>)
        requires
            self.spec_install() matches Some(f) ==> call_requires(f, ()),
            call_requires(main, ()),
            self.spec_at_exit() matches Some(x) ==> call_requires(x, ()),
            self.spec_on_error() matches Some(t) ==> forall|e: E|
                #[trigger] call_ensures(main, (), Result::<(), E>::Err(e)) ==> call_requires(
                    t,
                    (e,),
                ),
            self.spec_on_error() matches Some(t) ==> (self.spec_install() matches Some(f)
                ==> forall|e: E|
                #[trigger] call_ensures(f, (), Result::<(), E>::Err(e)) ==> call_requires(
                    t,
                    (e,),
                )),
        ensures
            exists|tr: Seq<LifeEvent<E>>| #[trigger] execute_behavior(self, main, tr, result),
    {
        let ghost me = self;
        let ghost ht = self.spec_on_error() is Some;
        let ghost hx = self.spec_at_exit() is Some;
        let ghost mut gr0: Result<(), E> = Result::Ok(());
        let Terminate { install, on_error, at_exit, error: _ } = self;
        if let Some(f) = install {
            let r0 = f();
            proof {
                gr0 = r0;
                match gr0 {
                    Result::Err(e) => {
                        assert(call_ensures(f, (), Result::<(), E>::Err(e)));
                    },
                    Result::Ok(u) => {},
                }
            }
            let s0 = settle_phase(&on_error, r0);
            run_exit_hook(&at_exit);
            proof {
                assert(me.spec_on_error() == on_error);
                assert(phase_obs(f, me.spec_on_error(), gr0, s0));
            }
            match s0 {
                Result::Err(e1) => {
                    proof {
                        let itr = phase_trace(
                            Phase::Install,
                            gr0,
                            Result::<(), E>::Err(e1),
                            ht,
                            hx,
                        );
                        assert(execute_behavior(me, main, itr, Result::<(), E>::Err(e1)));
                    }
                    return Result::Err(e1);
                },
                Result::Ok(u) => {},
            }
        }
        let r1 = main();
        let ghost gr1 = r1;
        proof {
            match gr1 {
                Result::Err(e) => {
                    assert(call_ensures(main, (), Result::<(), E>::Err(e)));
                },
                Result::Ok(u) => {},
            }
        }
        let s1 = settle_phase(&on_error, r1);
        run_exit_hook(&at_exit);
        proof {
            let ghost gs1 = s1;
            let mtr = phase_trace(Phase::Main, gr1, gs1, ht, hx);
            assert(phase_obs(main, me.spec_on_error(), gr1, gs1));
            match me.spec_install() {
                Option::Some(f) => {
                    let itr = phase_trace(Phase::Install, gr0, Result::<(), E>::Ok(()), ht, hx);
                    assert(phase_obs(f, me.spec_on_error(), gr0, Result::<(), E>::Ok(())));
                    assert(main_behavior(me, main, itr, itr + mtr, gs1));
                    assert(execute_behavior(me, main, itr + mtr, gs1));
                },
                Option::None => {
                    assert(main_behavior(me, main, Seq::empty(), Seq::empty() + mtr, gs1));
                    assert(execute_behavior(me, main, Seq::empty() + mtr, gs1));
                },
            }
        }
        s1
    }
}

/// When no install routine is configured, an execution runs no install
/// phase, runs the main routine exactly once, and runs the exit hook at most
/// once: exactly once when one is configured and never otherwise. The result
/// is the main routine's outcome settled through the error-transform hook.
pub proof fn lemma_execute_without_install<E, IF, TF, XF, MF>(
    t: Terminate<E, IF, TF, XF>,
    main: MF,
    tr: Seq<LifeEvent<E>>,
    result: Result<(), E>,
) where
    IF: Fn() -> Result<(), E>,
    TF: Fn(E) -> E,
    XF: Fn(),
    MF: Fn() -> Result<(), E>,

    requires
        t.spec_install() is None,
        execute_behavior(t, main, tr, result),
    ensures
        install_runs(tr) == 0,
        main_runs(tr) == 1,
        exit_hook_runs(tr) == (if t.spec_at_exit() is Some {
            1nat
        } else {
            0nat
        }),
        exists|r1: Result<(), E>| #[trigger] call_ensures(main, (), r1) && settles_to(
            t.spec_on_error(),
            r1,
            result,
        ),
{
    let (r1, s1) = choose|r1: Result<(), E>, s1: Result<(), E>|
        #[trigger] phase_obs(main, t.spec_on_error(), r1, s1)
        && tr == Seq::empty() + phase_trace(
            Phase::Main,
            r1,
            s1,
            t.spec_on_error() is Some,
            t.spec_at_exit() is Some,
        )
        && result == s1;
    let mtr = phase_trace(Phase::Main, r1, s1, t.spec_on_error() is Some, t.spec_at_exit() is Some);
    assert(Seq::empty() + mtr =~= mtr);
    lemma_phase_trace_counts(Phase::Main, r1, s1, t.spec_on_error() is Some, t.spec_at_exit() is Some);
    assert(call_ensures(main, (), r1) && settles_to(t.spec_on_error(), r1, result));
}

/// When the install routine is configured and fails, the main routine never
/// runs, the exit hook runs exactly once when one is configured and never
/// otherwise, and the execution returns the install error as settled through
/// the error-transform hook.
pub proof fn lemma_execute_install_failure<E, IF, TF, XF, MF>(
    t: Terminate<E, IF, TF, XF>,
    main: MF,
    tr: Seq<LifeEvent<E>>,
    result: Result<(), E>,
    e: E,
) where
    IF: Fn() -> Result<(), E>,
    TF: Fn(E) -> E,
    XF: Fn(),
    MF: Fn() -> Result<(), E>,

    requires
        t.spec_install() is Some,
        execute_behavior(t, main, tr, result),
        tr.len() > 0,
        tr[0] == LifeEvent::Run(Phase::Install, Result::<(), E>::Err(e)),
    ensures
        install_runs(tr) == 1,
        main_runs(tr) == 0,
        exit_hook_runs(tr) == (if t.spec_at_exit() is Some {
            1nat
        } else {
            0nat
        }),
        result is Err,
        transforms_to(t.spec_on_error(), e, result->Err_0),
        call_ensures(t.spec_install()->Some_0, (), Result::<(), E>::Err(e)),
{
    let f = t.spec_install()->Some_0;
    let (r0, s0) = choose|r0: Result<(), E>, s0: Result<(), E>|
        #[trigger] phase_obs(f, t.spec_on_error(), r0, s0)
        && install_then(t, main, r0, s0, tr, result);
    let ht = t.spec_on_error() is Some;
    let hx = t.spec_at_exit() is Some;
    let itr = phase_trace(Phase::Install, r0, s0, ht, hx);
    assert(itr[0] == LifeEvent::Run(Phase::Install, r0));
    match s0 {
        Result::Ok(u) => {
            let (r1, s1) = choose|r1: Result<(), E>, s1: Result<(), E>|
                #[trigger] phase_obs(main, t.spec_on_error(), r1, s1)
                && tr == itr + phase_trace(Phase::Main, r1, s1, ht, hx)
                && result == s1;
            assert(tr[0] == itr[0]);
            assert(r0 == Result::<(), E>::Err(e));
            assert(false);
        },
        Result::Err(e1) => {
            assert(tr == itr);
            assert(r0 == Result::<(), E>::Err(e));
            lemma_phase_trace_counts(Phase::Install, r0, s0, ht, hx);
            assert(transforms_to(t.spec_on_error(), e, e1));
            assert(result == Result::<(), E>::Err(e1));
        },
    }
}

/// When the install routine is configured and succeeds, the exit hook (when
/// one is configured) runs right after the install phase, the main routine
/// then runs exactly once, and the exit hook runs once more at the very end
/// — twice in all; with no exit hook configured it never runs. The result is
/// the main routine's outcome settled through the error-transform hook.
pub proof fn lemma_execute_install_success<E, IF, TF, XF, MF>(
    t: Terminate<E, IF, TF, XF>,
    main: MF,
    tr: Seq<LifeEvent<E>>,
    result: Result<(), E>,
) where
    IF: Fn() -> Result<(), E>,
    TF: Fn(E) -> E,
    XF: Fn(),
    MF: Fn() -> Result<(), E>,

    requires
        t.spec_install() is Some,
        execute_behavior(t, main, tr, result),
        tr.len() > 0,
        tr[0] == LifeEvent::Run(Phase::Install, Result::<(), E>::Ok(())),
    ensures
        install_runs(tr) == 1,
        main_runs(tr) == 1,
        exit_hook_runs(tr) == (if t.spec_at_exit() is Some {
            2nat
        } else {
            0nat
        }),
        t.spec_at_exit() is Some ==> tr[1] == LifeEvent::<E>::ExitHook,
        t.spec_at_exit() is Some ==> tr[2] matches LifeEvent::Run(Phase::Main, _),
        t.spec_at_exit() is Some ==> tr.last() == LifeEvent::<E>::ExitHook,
        exists|r1: Result<(), E>| #[trigger] call_ensures(main, (), r1) && settles_to(
            t.spec_on_error(),
            r1,
            result,
        ),
{
    let f = t.spec_install()->Some_0;
    let (r0, s0) = choose|r0: Result<(), E>, s0: Result<(), E>|
        #[trigger] phase_obs(f, t.spec_on_error(), r0, s0)
        && install_then(t, main, r0, s0, tr, result);
    let ht = t.spec_on_error() is Some;
    let hx = t.spec_at_exit() is Some;
    let itr = phase_trace(Phase::Install, r0, s0, ht, hx);
    assert(itr[0] == LifeEvent::Run(Phase::Install, r0));
    match s0 {
        Result::Err(e1) => {
            assert(tr == itr);
            assert(r0 == Result::<(), E>::Ok(()));
            assert(false);
        },
        Result::Ok(u) => {
            let (r1, s1) = choose|r1: Result<(), E>, s1: Result<(), E>|
                #[trigger] phase_obs(main, t.spec_on_error(), r1, s1)
                && tr == itr + phase_trace(Phase::Main, r1, s1, ht, hx)
                && result == s1;
            let mtr = phase_trace(Phase::Main, r1, s1, ht, hx);
            assert(tr[0] == itr[0]);
            assert(r0 == Result::<(), E>::Ok(()));
            lemma_phase_trace_counts(Phase::Install, r0, s0, ht, hx);
            lemma_phase_trace_counts(Phase::Main, r1, s1, ht, hx);
            lemma_event_counts_add(itr, mtr);
            assert(call_ensures(main, (), r1) && settles_to(t.spec_on_error(), r1, result));
            if hx {
                assert(itr =~= seq![
                    LifeEvent::Run(Phase::Install, Result::<(), E>::Ok(())),
                    LifeEvent::<E>::ExitHook,
                ]);
                assert(tr[1] == itr[1]);
                assert(tr[2] == mtr[0]);
                assert(mtr[0] == LifeEvent::Run(Phase::Main, r1));
                let mrun = seq![LifeEvent::Run(Phase::Main, r1)];
                let mmid: Seq<LifeEvent<E>> = if ht {
                    match (r1, s1) {
                        (Result::Err(e), Result::Err(e1)) => seq![LifeEvent::Transform(e, e1)],
                        _ => seq![],
                    }
                } else {
                    seq![]
                };
                let mend = seq![LifeEvent::<E>::ExitHook];
                assert(mtr == mrun + mmid + mend);
                assert(mtr.last() == LifeEvent::<E>::ExitHook);
                assert(tr.last() == mtr.last());
            }
        },
    }
}

/// Where each kind of event stands in one phase's events: the phase's run
/// comes first and is the only run; a transform, when present, stands right
/// after it; and the whole phase has one, two or three events accordingly.
pub proof fn lemma_phase_trace_events<E>(
    phase: Phase,
    out: Result<(), E>,
    settled: Result<(), E>,
    ht: bool,
    hx: bool,
)
    ensures
        phase_trace(phase, out, settled, ht, hx)[0] == LifeEvent::Run(phase, out),
        forall|i: int| 1 <= i < phase_trace(phase, out, settled, ht, hx).len()
            ==> !((#[trigger] phase_trace(phase, out, settled, ht, hx)[i]) matches LifeEvent::Run(
            _,
            _,
        )),
        (ht && out is Err && settled is Err) ==> phase_trace(phase, out, settled, ht, hx)[1]
            == LifeEvent::Transform(out->Err_0, settled->Err_0),
        phase_trace(phase, out, settled, ht, hx).len() == 1 + (
        if ht && out is Err && settled is Err {
            1int
        } else {
            0int
        }) + (if hx {
            1int
        } else {
            0int
        }),
{
    let run = seq![LifeEvent::Run(phase, out)];
    let mid: Seq<LifeEvent<E>> = if ht {
        match (out, settled) {
            (Result::Err(e), Result::Err(e1)) => seq![LifeEvent::Transform(e, e1)],
            _ => seq![],
        }
    } else {
        seq![]
    };
    let end: Seq<LifeEvent<E>> = if hx {
        seq![LifeEvent::<E>::ExitHook]
    } else {
        seq![]
    };
    assert(phase_trace(phase, out, settled, ht, hx) == run + mid + end);
}

/// The error-transform hook, when configured, is applied to every
/// phase-level error before that phase's exit-hook run and before it is
/// returned: in the trace, a failing phase's run is followed immediately by
/// a transform event taking exactly that phase's raw error to a value the
/// hook can return for it, and a failing execution's result is a value the
/// hook produced.
pub proof fn lemma_error_transform_applied<E, IF, TF, XF, MF>(
    t: Terminate<E, IF, TF, XF>,
    main: MF,
    tr: Seq<LifeEvent<E>>,
    result: Result<(), E>,
) where
    IF: Fn() -> Result<(), E>,
    TF: Fn(E) -> E,
    XF: Fn(),
    MF: Fn() -> Result<(), E>,

    requires
        t.spec_on_error() is Some,
        execute_behavior(t, main, tr, result),
    ensures
        forall|i: int| 0 <= i < tr.len() ==> ((#[trigger] tr[i]) matches LifeEvent::Run(ph, out)
            ==> (out matches Result::Err(e) ==> (i + 1 < tr.len() && (tr[i + 1] matches
        LifeEvent::Transform(e0, e1) && e0 == e && call_ensures(
            t.spec_on_error()->Some_0,
            (e,),
            e1,
        ))))),
        result matches Result::Err(e1) ==> exists|e0: E| #![auto] call_ensures(
            t.spec_on_error()->Some_0,
            (e0,),
            e1,
        ),
{
    let ht = true;
    let hx = t.spec_at_exit() is Some;
    match t.spec_install() {
        Option::Some(f) => {
            let (r0, s0) = choose|r0: Result<(), E>, s0: Result<(), E>|
                #[trigger] phase_obs(f, t.spec_on_error(), r0, s0)
                && install_then(t, main, r0, s0, tr, result);
            let itr = phase_trace(Phase::Install, r0, s0, ht, hx);
            lemma_phase_trace_events(Phase::Install, r0, s0, ht, hx);
            match s0 {
                Result::Err(se) => {
                    assert(tr == itr);
                    assert(r0 is Err);
                    assert(tr[1] == LifeEvent::Transform(r0->Err_0, se));
                    assert(call_ensures(t.spec_on_error()->Some_0, (r0->Err_0,), se));
                    assert forall|i: int|
                        0 <= i < tr.len() && (#[trigger] tr[i]) matches LifeEvent::Run(
                            ph,
                            out,
                        ) implies i == 0 by {}
                },
                Result::Ok(u) => {
                    let (r1, s1) = choose|r1: Result<(), E>, s1: Result<(), E>|
                        #[trigger] phase_obs(main, t.spec_on_error(), r1, s1)
                        && tr == itr + phase_trace(Phase::Main, r1, s1, ht, hx)
                        && result == s1;
                    let mtr = phase_trace(Phase::Main, r1, s1, ht, hx);
                    lemma_phase_trace_events(Phase::Main, r1, s1, ht, hx);
                    assert(r0 is Ok);
                    assert forall|i: int|
                        0 <= i < tr.len() && (#[trigger] tr[i]) matches LifeEvent::Run(
                            ph,
                            out,
                        ) implies (i == 0 || i == itr.len()) by {
                        if i < itr.len() {
                            assert(tr[i] == itr[i]);
                        } else {
                            assert(tr[i] == mtr[i - itr.len()]);
                        }
                    }
                    if r1 is Err {
                        assert(s1 is Err);
                        assert(mtr[1] == LifeEvent::Transform(r1->Err_0, s1->Err_0));
                        assert(tr[itr.len() as int + 1] == mtr[1]);
                        assert(call_ensures(t.spec_on_error()->Some_0, (r1->Err_0,), s1->Err_0));
                    }
                    if result is Err {
                        assert(result == s1);
                        assert(r1 is Err);
                    }
                },
            }
        },
        Option::None => {
            let (r1, s1) = choose|r1: Result<(), E>, s1: Result<(), E>|
                #[trigger] phase_obs(main, t.spec_on_error(), r1, s1)
                && tr == Seq::empty() + phase_trace(Phase::Main, r1, s1, ht, hx)
                && result == s1;
            let mtr = phase_trace(Phase::Main, r1, s1, ht, hx);
            assert(Seq::empty() + mtr =~= mtr);
            lemma_phase_trace_events(Phase::Main, r1, s1, ht, hx);
            if r1 is Err {
                assert(s1 is Err);
                assert(tr[1] == LifeEvent::Transform(r1->Err_0, s1->Err_0));
                assert(call_ensures(t.spec_on_error()->Some_0, (r1->Err_0,), s1->Err_0));
            }
            assert forall|i: int|
                0 <= i < tr.len() && (#[trigger] tr[i]) matches LifeEvent::Run(
                    ph,
                    out,
                ) implies i == 0 by {}
        },
    }
}

/// When no error-transform hook is configured, no transform event occurs in
/// any execution, and a failing execution returns the failing phase's raw
/// error unchanged: the returned error is exactly the error some phase run
/// in the trace produced.
pub proof fn lemma_error_transform_unset<E, IF, TF, XF, MF>(
    t: Terminate<E, IF, TF, XF>,
    main: MF,
    tr: Seq<LifeEvent<E>>,
    result: Result<(), E>,
) where
    IF: Fn() -> Result<(), E>,
    TF: Fn(E) -> E,
    XF: Fn(),
    MF: Fn() -> Result<(), E>,

    requires
        t.spec_on_error() is None,
        execute_behavior(t, main, tr, result),
    ensures
        transform_runs(tr) == 0,
        result matches Result::Err(e1) ==> exists|i: int| 0 <= i < tr.len()
            && ((#[trigger] tr[i]) matches LifeEvent::Run(ph, out) && out == Result::<(), E>::Err(
            e1,
        )),
{
    let ht = false;
    let hx = t.spec_at_exit() is Some;
    match t.spec_install() {
        Option::Some(f) => {
            let (r0, s0) = choose|r0: Result<(), E>, s0: Result<(), E>|
                #[trigger] phase_obs(f, t.spec_on_error(), r0, s0)
                && install_then(t, main, r0, s0, tr, result);
            let itr = phase_trace(Phase::Install, r0, s0, ht, hx);
            lemma_phase_trace_counts(Phase::Install, r0, s0, ht, hx);
            lemma_phase_trace_events(Phase::Install, r0, s0, ht, hx);
            match s0 {
                Result::Err(se) => {
                    assert(tr == itr);
                    assert(r0 == Result::<(), E>::Err(se));
                    assert(tr[0] == LifeEvent::Run(Phase::Install, r0));
                },
                Result::Ok(u) => {
                    let (r1, s1) = choose|r1: Result<(), E>, s1: Result<(), E>|
                        #[trigger] phase_obs(main, t.spec_on_error(), r1, s1)
                        && tr == itr + phase_trace(Phase::Main, r1, s1, ht, hx)
                        && result == s1;
                    let mtr = phase_trace(Phase::Main, r1, s1, ht, hx);
                    lemma_phase_trace_counts(Phase::Main, r1, s1, ht, hx);
                    lemma_phase_trace_events(Phase::Main, r1, s1, ht, hx);
                    lemma_event_counts_add(itr, mtr);
                    if result is Err {
                        assert(r1 == result);
                        assert(tr[itr.len() as int] == mtr[0]);
                        assert(mtr[0] == LifeEvent::Run(Phase::Main, r1));
                    }
                },
            }
        },
        Option::None => {
            let (r1, s1) = choose|r1: Result<(), E>, s1: Result<(), E>|
                #[trigger] phase_obs(main, t.spec_on_error(), r1, s1)
                && tr == Seq::empty() + phase_trace(Phase::Main, r1, s1, ht, hx)
                && result == s1;
            let mtr = phase_trace(Phase::Main, r1, s1, ht, hx);
            assert(Seq::empty() + mtr =~= mtr);
            lemma_phase_trace_counts(Phase::Main, r1, s1, ht, hx);
            lemma_phase_trace_events(Phase::Main, r1, s1, ht, hx);
            if result is Err {
                assert(r1 == result);
                assert(tr[0] == LifeEvent::Run(Phase::Main, r1));
            }
        },
    }
}

} // verus!
