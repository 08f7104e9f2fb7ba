//! Structured, cooperative cancellation with an explicitly passed context.
//!
//! The context is handed to the function running inside a computation so it
//! can control its own cancellation: enter critical sections that must not
//! be torn down, observe a pending cancellation request explicitly, or
//! disable cancellation for good. Cancellation is only ever observed at
//! these designated checkpoints; nothing is forcibly destroyed.

use vstd::prelude::*;

verus! {

/// Handed to the body of a structured-cancellation section: reports
/// whether cancellation had been requested when the section was entered.
#[derive(Debug, Clone, Copy, PartialEq, Eq, Structural)]
pub struct CancellationObserver {
    pub cancelled: bool,
}

impl CancellationObserver {
    /// Whether cancellation was requested for the enclosing computation.
    pub fn is_cancelled(&self) -> (r: bool)
        ensures
            r == self.cancelled,
    {
        self.cancelled
    }
}

/// Witness that the holder's computation can no longer be cancelled.
#[derive(Debug, Clone, Copy, PartialEq, Eq, Structural)]
pub struct DisableCancellationGuard;

/// The cancellation state of one running computation.
#[derive(Debug, Clone, Copy, PartialEq, Eq, Structural)]
pub struct ExecutionContext {
    /// Cancellation has been requested by the owner of this computation.
    pub cancellation_requested: bool,
    /// Cancellation has been permanently disabled from within.
    pub cancellation_disabled: bool,
}

impl ExecutionContext {
    pub fn new() -> (r: ExecutionContext)
        ensures
            !r.cancellation_requested,
            !r.cancellation_disabled,
    {
        ExecutionContext { cancellation_requested: false, cancellation_disabled: false }
    }

    /// Whether the computation must wind down at the next checkpoint.
    pub open spec fn spec_effectively_cancelled(self) -> bool {
        self.cancellation_requested && !self.cancellation_disabled
    }
}

/// Context available only to explicitly cancellable computations to manage
/// their own cancellation.
pub struct ExplicitCancellationContext {
    pub inner: ExecutionContext,
}

impl ExplicitCancellationContext {
    pub fn testing() -> (r: ExplicitCancellationContext)
        ensures
            !r.inner.cancellation_requested,
            !r.inner.cancellation_disabled,
    {
        ExplicitCancellationContext { inner: ExecutionContext::new() }
    }

    /// Runs `make` as a critical section: once entered, the body runs to
    /// completion even if cancellation was requested before entry; the
    /// computation only yields to a pending cancellation after the section
    /// exits.
    pub fn critical_section<T, F: FnOnce() -> T>(&self, make: F) -> (r: T)
        requires
            call_requires(make, ()),
        ensures
            call_ensures(make, (), r),
    {
        make()
    }

    /// Runs `make` with an observer through which the body can poll for a
    /// pending cancellation request and wind down cooperatively.
    pub fn with_structured_cancellation<T, F: FnOnce(CancellationObserver) -> T>(
        &self,
        make: F,
    ) -> (r: T)
        requires
            forall|obs: CancellationObserver|
                obs.cancelled == self.inner.spec_effectively_cancelled() ==> call_requires(
                    make,
                    (obs,),
                ),
        ensures
            exists|obs: CancellationObserver|
                obs.cancelled == self.inner.spec_effectively_cancelled() && call_ensures(
                    make,
                    (obs,),
                    r,
                ),
    {
        let cancelled = self.inner.cancellation_requested && !self.inner.cancellation_disabled;
        let obs = CancellationObserver { cancelled };
        proof {
            assert(obs.cancelled == self.inner.spec_effectively_cancelled());
            assert(call_requires(make, (obs,)));
        }
        let r = make(obs);
        proof {
            assert(call_ensures(make, (obs,), r));
        }
        r
    }

    /// Permanently exempts this computation from cancellation, unless it
    /// was already cancelled before the attempt.
    pub fn try_to_disable_cancellation(&mut self) -> (r: Option<DisableCancellationGuard>)
        ensures
            old(self).inner.spec_effectively_cancelled() ==> r is None && *final(self) == *old(self),
            !old(self).inner.spec_effectively_cancelled() ==> r is Some && final(self).inner.cancellation_disabled && final(self).inner.cancellation_requested == old(self).inner.cancellation_requested,
    {
        if self.inner.cancellation_requested && !self.inner.cancellation_disabled {
            None
        } else {
            self.inner.cancellation_disabled = true;
            Some(DisableCancellationGuard)
        }
    }

    /// Views this context through the general interface.
    pub fn into_compatible(&self) -> (r: CancellationContext)
        ensures
            r.0 == CancellationContextInner::Explicit(self.inner),
    {
        CancellationContext(CancellationContextInner::Explicit(self.inner))
    }
}

/// Context available to the function running inside a computation to
/// control and manage its own cancellation.
pub struct CancellationContext(pub CancellationContextInner);

impl CancellationContext {
    /// A context for callers that have not yet threaded a real one through.
    pub fn todo() -> (r: CancellationContext)
        ensures
            r.0 == CancellationContextInner::NeverCancelled,
    {
        CancellationContext(CancellationContextInner::NeverCancelled)
    }

    pub fn testing() -> (r: CancellationContext)
        ensures
            r.0 == CancellationContextInner::NeverCancelled,
    {
        CancellationContext(CancellationContextInner::NeverCancelled)
    }

    /// A context for work that is never cancelled.
    pub fn never_cancelled() -> (r: CancellationContext)
        ensures
            r.0 == CancellationContextInner::NeverCancelled,
    {
        CancellationContext(CancellationContextInner::NeverCancelled)
    }

    pub open spec fn spec_effectively_cancelled(self) -> bool {
        match self.0 {
            CancellationContextInner::NeverCancelled => false,
            CancellationContextInner::Explicit(inner) => inner.spec_effectively_cancelled(),
        }
    }

    /// See [`ExplicitCancellationContext::critical_section`].
    pub fn critical_section<T, F: FnOnce() -> T>(&self, make: F) -> (r: T)
        requires
            call_requires(make, ()),
        ensures
            call_ensures(make, (), r),
    {
        self.0.critical_section(make)
    }

    /// See [`ExplicitCancellationContext::with_structured_cancellation`].
    pub fn with_structured_cancellation<T, F: FnOnce(CancellationObserver) -> T>(
        &self,
        make: F,
    ) -> (r: T)
        requires
            forall|obs: CancellationObserver|
                obs.cancelled == self.spec_effectively_cancelled() ==> call_requires(
                    make,
                    (obs,),
                ),
        ensures
            exists|obs: CancellationObserver|
                obs.cancelled == self.spec_effectively_cancelled() && call_ensures(
                    make,
                    (obs,),
                    r,
                ),
    {
        self.0.with_structured_cancellation(make)
    }

    /// Permanently exempts the computation from cancellation; `None` if it
    /// was already cancelled before the attempt.
    pub fn try_to_disable_cancellation(&mut self) -> (r: Option<DisableCancellationGuard>)
        ensures
            old(self).spec_effectively_cancelled() ==> r is None,
            !old(self).spec_effectively_cancelled() ==> r is Some,
    {
        self.0.try_to_disable_cancellation()
    }
}

/// Which kind of context backs a [`CancellationContext`]: one that is
/// never cancelled, or an explicitly threaded execution context.
pub enum CancellationContextInner {
    NeverCancelled,
    Explicit(ExecutionContext),
}

impl CancellationContextInner {
    pub open spec fn spec_effectively_cancelled(self) -> bool {
        match self {
            CancellationContextInner::NeverCancelled => false,
            CancellationContextInner::Explicit(inner) => inner.spec_effectively_cancelled(),
        }
    }

    /// See [`ExplicitCancellationContext::critical_section`].
    pub fn critical_section<T, F: FnOnce() -> T>(&self, make: F) -> (r: T)
        requires
            call_requires(make, ()),
        ensures
            call_ensures(make, (), r),
    {
        make()
    }

    /// See [`ExplicitCancellationContext::with_structured_cancellation`].
    pub fn with_structured_cancellation<T, F: FnOnce(CancellationObserver) -> T>(
        &self,
        make: F,
    ) -> (r: T)
        requires
            forall|obs: CancellationObserver|
                obs.cancelled == self.spec_effectively_cancelled() ==> call_requires(
                    make,
                    (obs,),
                ),
        ensures
            exists|obs: CancellationObserver|
                obs.cancelled == self.spec_effectively_cancelled() && call_ensures(
                    make,
                    (obs,),
                    r,
                ),
    {
        match self {
            CancellationContextInner::NeverCancelled => {
                let obs = CancellationObserver { cancelled: false };
                proof {
                    assert(obs.cancelled == self.spec_effectively_cancelled());
                    assert(call_requires(make, (obs,)));
                }
                let r = make(obs);
                proof {
                    assert(call_ensures(make, (obs,), r));
                }
                r
            },
            CancellationContextInner::Explicit(inner) => {
                let cancelled = inner.cancellation_requested && !inner.cancellation_disabled;
                let obs = CancellationObserver { cancelled };
                proof {
                    assert(obs.cancelled == self.spec_effectively_cancelled());
                    assert(call_requires(make, (obs,)));
                }
                let r = make(obs);
                proof {
                    assert(call_ensures(make, (obs,), r));
                }
                r
            },
        }
    }

    /// Permanently exempts the computation from cancellation; `None` if it
    /// was already cancelled before the attempt.
    pub fn try_to_disable_cancellation(&mut self) -> (r: Option<DisableCancellationGuard>)
        ensures
            old(self).spec_effectively_cancelled() ==> r is None,
            !old(self).spec_effectively_cancelled() ==> r is Some,
    {
        match self {
            CancellationContextInner::NeverCancelled => Some(DisableCancellationGuard),
            CancellationContextInner::Explicit(inner) => {
                if inner.cancellation_requested && !inner.cancellation_disabled {
                    None
                } else {
                    inner.cancellation_disabled = true;
                    Some(DisableCancellationGuard)
                }
            },
        }
    }
}

} // verus!
