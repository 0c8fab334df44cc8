//! The context that modules fill by themselves: each module contributes a
//! setup function, and the functions are run once, in the order in which they
//! were contributed, against one fresh context.

use vstd::prelude::*;
use crate::context::Context;
use crate::context::SharedInit;
use crate::context::inits_ran;
use crate::context::run_inits;
use crate::error::Error;
use crate::ty::TypeRegistry;

verus! {

/// The name of the context that the setup functions fill.
pub open spec fn auto_registered_name() -> Seq<char> {
    "auto-registered"@
}

/// Whether a filling succeeded, without the context it filled.
pub open spec fn outcome(r: Result<Context, Error>) -> Result<(), Error> {
    match r {
        Ok(_) => Ok(()),
        Err(e) => Err(e),
    }
}

/// Whether `r` and `types_after` are what filling a fresh context by the
/// setup functions `setup` comes to: the functions ran in order, each once,
/// the first against the empty context named `auto-registered` and the registry
/// `types_before`, each later one against what the one before left; the first
/// failure ended the run and is the result; and without a failure the result
/// is the context that the last function left.
pub open spec fn auto_registered(
    setup: Seq<SharedInit>,
    types_before: TypeRegistry,
    types_after: TypeRegistry,
    r: Result<Context, Error>,
) -> bool {
    exists|fresh: Context, last: Context|
        {
            &&& fresh.is_empty_named(auto_registered_name())
            &&& #[trigger] inits_ran(setup, fresh, types_before, last, types_after, outcome(r))
            &&& r matches Ok(context) ==> context == last
        }
}

/// A fresh context named `auto-registered`, after every function of `setup`
/// was run against it, in order. The first failure ends the run and is the
/// result. Without any function the context comes back empty and the registry
/// stays as it is.
pub fn get_auto_register_context(setup: &Vec<SharedInit>, types: &mut TypeRegistry) -> (r: Result<
    Context,
    Error,
>)
    requires
        old(types).wf(),
    ensures
        final(types).wf(),
        r matches Ok(context) ==> context.wf(),
        auto_registered(setup@, *old(types), *final(types), r),
        setup.len() == 0 ==> {
            &&& r matches Ok(context)
            &&& context.is_empty_named(auto_registered_name())
            &&& *final(types) == *old(types)
        },
{
    let mut context = Context::new("auto-registered");
    let ghost fresh = context;
    let done = run_inits(setup, &mut context, types);
    let ghost last = context;
    match done {
        Ok(()) => {
            let r = Ok(context);
            proof {
                assert(outcome(r) == Ok::<(), Error>(()));
                assert(inits_ran(setup@, fresh, *old(types), last, *types, outcome(r)));
            }
            r
        },
        Err(e) => {
            let r = Err(e);
            proof {
                assert(outcome(r) == Err::<(), Error>(e));
                assert(inits_ran(setup@, fresh, *old(types), last, *types, outcome(r)));
            }
            r
        },
    }
}

} // verus!
