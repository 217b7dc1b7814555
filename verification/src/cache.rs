//! A handle that is opened on first use and kept from then on.

use vstd::prelude::*;

verus! {

/// At most one opened handle of a repository.
///
/// The handle is opened when it is first asked for and handed out again on
/// every later request, until the cache is invalidated. A failure to open
/// leaves the cache empty, so that the next request tries again.
pub struct WorkspaceCache<H> {
    slot: Option<H>,
}

impl<H> WorkspaceCache<H> {
    /// The handle that is kept, if any.
    pub closed spec fn cached(&self) -> Option<H> {
        self.slot
    }

    /// A cache that keeps nothing yet.
    pub fn new() -> (cache: Self)
        ensures
            cache.cached() is None,
    {
        WorkspaceCache { slot: None }
    }

    /// Whether a handle is kept.
    pub fn is_initialized(&self) -> (initialized: bool)
        ensures
            initialized == self.cached() is Some,
    {
        self.slot.is_some()
    }

    /// The handle that is kept, if any.
    pub fn get(&self) -> (handle: Option<&H>)
        ensures
            match handle {
                Some(h) => self.cached() == Some(*h),
                None => self.cached() is None,
            },
    {
        self.slot.as_ref()
    }

    /// Forgets the handle, so that the next request opens a new one.
    pub fn invalidate(&mut self)
        ensures
            final(self).cached() is None,
    {
        self.slot = None;
    }
}

/// What a request for the handle does. With `before` in the cache, the cache
/// keeps it and the request hands out a clone of it. With an empty cache the
/// request hands out what opening gave, which `may_open` admits: a new
/// handle, of which the cache then keeps a clone, or the failure, with the
/// cache still empty.
pub open spec fn is_request_outcome<H: Clone, E>(
    before: Option<H>,
    may_open: spec_fn(Result<H, E>) -> bool,
    handle: Result<H, E>,
    after: Option<H>,
) -> bool {
    match before {
        Some(kept) => {
            &&& after == Some(kept)
            &&& handle matches Ok(h) && cloned(kept, h)
        },
        None => {
            &&& may_open(handle)
            &&& match handle {
                Ok(h) => after matches Some(kept) && cloned(h, kept),
                Err(_) => after is None,
            }
        },
    }
}

impl<H: Clone> WorkspaceCache<H> {
    /// Hands out the kept handle, or opens one with `open` and keeps it.
    ///
    /// With a handle in the cache, the result is a clone of it and `open` is
    /// not needed. With an empty cache the result is what `open` returned: a
    /// new handle, of which the cache then keeps a clone, or the failure, with
    /// the cache still empty, so that the next request opens again.
    pub fn get_or_init<E, F: FnOnce() -> Result<H, E>>(&mut self, open: F) -> (handle: Result<
        H,
        E,
    >)
        requires
            old(self).cached() is None ==> open.requires(()),
        ensures
            is_request_outcome(
                old(self).cached(),
                |opened: Result<H, E>| open.ensures((), opened),
                handle,
                final(self).cached(),
            ),
    {
        match &self.slot {
            Some(kept) => Ok(kept.clone()),
            None => {
                let opened = open();
                match opened {
                    Ok(handle) => {
                        self.slot = Some(handle.clone());
                        Ok(handle)
                    },
                    Err(error) => Err(error),
                }
            },
        }
    }
}

impl<H: Clone> WorkspaceCache<H> {
    /// Hands out the kept handle, or opens one with `open` from `source` and
    /// keeps it. This is `get_or_init` for an `open` that is told what to
    /// open.
    pub fn get_or_init_from<S, E, F: FnOnce(&S) -> Result<H, E>>(
        &mut self,
        source: &S,
        open: F,
    ) -> (handle: Result<H, E>)
        requires
            old(self).cached() is None ==> open.requires((source,)),
        ensures
            is_request_outcome(
                old(self).cached(),
                |opened: Result<H, E>| open.ensures((source,), opened),
                handle,
                final(self).cached(),
            ),
    {
        match &self.slot {
            Some(kept) => Ok(kept.clone()),
            None => {
                let opened = open(source);
                match opened {
                    Ok(handle) => {
                        self.slot = Some(handle.clone());
                        Ok(handle)
                    },
                    Err(error) => Err(error),
                }
            },
        }
    }
}

/// Two requests in a row hand out the same handle.
///
/// For every cache and every two requests with no invalidation between them,
/// of which the first succeeds: the second succeeds too, whatever opening
/// would give then, it leaves the cache as the first left it, and it hands
/// out a clone of the handle that the cache keeps. Where a clone of a handle
/// is the handle itself, as it is for a shared pointer, both requests hand
/// out the very handle that the cache keeps.
pub proof fn lemma_repeated_request<H: Clone, E>(
    before: Option<H>,
    may_open_first: spec_fn(Result<H, E>) -> bool,
    first: Result<H, E>,
    between: Option<H>,
    may_open_second: spec_fn(Result<H, E>) -> bool,
    second: Result<H, E>,
    after: Option<H>,
)
    requires
        is_request_outcome(before, may_open_first, first, between),
        is_request_outcome(between, may_open_second, second, after),
        first is Ok,
    ensures
        between is Some,
        after == between,
        second is Ok,
        cloned(between.unwrap(), second->Ok_0),
        (forall|a: H, b: H| #[trigger] cloned(a, b) ==> a == b) ==> first == second && Some(
            first->Ok_0,
        ) == after,
{
    let kept = between.unwrap();
    if before is Some {
        assert(cloned(kept, first->Ok_0));
    } else {
        assert(cloned(first->Ok_0, kept));
    }
    assert(cloned(kept, second->Ok_0));
}

/// A failed request leaves nothing behind, so that the next one opens again.
///
/// For every empty cache: after a request that failed, the cache is still
/// empty, and the next request hands out what opening gives then.
pub proof fn lemma_failure_is_not_kept<H: Clone, E>(
    may_open_first: spec_fn(Result<H, E>) -> bool,
    first: Result<H, E>,
    between: Option<H>,
    may_open_second: spec_fn(Result<H, E>) -> bool,
    second: Result<H, E>,
    after: Option<H>,
)
    requires
        is_request_outcome(None, may_open_first, first, between),
        is_request_outcome(between, may_open_second, second, after),
        first is Err,
    ensures
        between is None,
        may_open_second(second),
{
}

} // verus!
