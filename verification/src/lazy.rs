use vstd::prelude::*;

verus! {

/// Where loading the module of a lazy component stands.
#[derive(Debug, Clone, Copy, PartialEq, Eq, Structural)]
pub enum LazyStatus {
    Uninitialized,
    Pending,
    Resolved,
    Rejected,
}

/// The payload of a lazy component: where loading stands, and its result
/// (by handle): the loader before loading, the promise while pending, the
/// module once resolved, the error once rejected.
#[derive(Debug, Clone, Copy, PartialEq, Eq, Structural)]
pub struct LazyPayload {
    pub status: LazyStatus,
    pub result: u64,
}

/// Reads a lazy component. Before loading, the loader is called and the
/// promise it gives subscribed to (`load`, given the loader, returns the
/// promise), and the payload becomes pending with the promise as result. A
/// resolved payload gives its module (`Ok`, whose default export is the
/// component); any other gives its result to throw (`Err`).
pub fn lazy_initializer<F: Fn(u64) -> u64>(payload: &mut LazyPayload, load: &F) -> (r: Result<u64, u64>)
    requires
        forall|loader: u64| load.requires((loader,)),
    ensures
        old(payload).status == LazyStatus::Uninitialized ==> exists|t: u64|
            load.ensures((old(payload).result,), t) && *final(payload) == (LazyPayload {
                status: LazyStatus::Pending,
                result: t,
            }) && r == Err::<u64, u64>(t),
        old(payload).status == LazyStatus::Resolved ==> *final(payload) == *old(payload) && r == Ok::<
            u64,
            u64,
        >(old(payload).result),
        old(payload).status == LazyStatus::Pending || old(payload).status == LazyStatus::Rejected
            ==> *final(payload) == *old(payload) && r == Err::<u64, u64>(old(payload).result),
{
    if payload.status == LazyStatus::Uninitialized {
        let thenable = load(payload.result);
        payload.status = LazyStatus::Pending;
        payload.result = thenable;
    }
    if payload.status == LazyStatus::Resolved {
        Ok(payload.result)
    } else {
        Err(payload.result)
    }
}

/// The promise of a lazy component resolved with `module`.
pub fn lazy_on_resolve(payload: &mut LazyPayload, module: u64)
    ensures
        *final(payload) == (LazyPayload { status: LazyStatus::Resolved, result: module }),
{
    payload.status = LazyStatus::Resolved;
    payload.result = module;
}

/// The promise of a lazy component rejected with `error`.
pub fn lazy_on_reject(payload: &mut LazyPayload, error: u64)
    ensures
        *final(payload) == (LazyPayload { status: LazyStatus::Rejected, result: error }),
{
    payload.status = LazyStatus::Rejected;
    payload.result = error;
}

} // verus!
