//! The driver: it owns the root context and the type registry, and takes an
//! application from its assembly to the end of its runners.
//!
//! The driver resolves the runners and gathers what became of them. Starting
//! a runner and waiting for it is the caller's business, between `started`
//! and `finish`. Runners are handed out in the order in which they are
//! resolved, and their outcomes are expected in that order.

use vstd::prelude::*;
use std::sync::Arc;
use crate::context::Context;
use crate::bean_def::BeanDef;
use crate::context::SharedInit;
use crate::context::beans_fit;
use crate::context::initialisers;
use crate::context::inits_ran;
use crate::context::lemma_empty_plan;
use crate::ty::Handle;
use crate::context::child_at;
use crate::context::assignable_to;
use crate::error::Error;
use crate::error::Failure;
use crate::runner::RunnerOutcome;
use crate::runner::collect_outcomes;
use crate::runner::complaints;
use crate::ty::TypeRegistry;

verus! {

/// How far an application has come.
#[derive(Clone, Copy, Debug, PartialEq, Eq, Structural)]
pub enum Phase {
    /// Nothing but the root context exists.
    Created,
    /// Child contexts were attached.
    ContextsAssembled,
    /// The deferred initialisers have run.
    Initialized,
    /// The runners were resolved.
    RunnersResolved,
    /// The runners were started.
    Running,
    /// The run is over, with success or with a failure.
    Finished,
}

/// An application: a root context, the type registry, and the phase reached.
pub struct App {
    context: Context,
    types: TypeRegistry,
    phase: Phase,
}

impl App {
    /// The root context and the registry are well formed.
    pub closed spec fn wf(&self) -> bool {
        self.context.wf() && self.types.wf()
    }

    /// The root context.
    pub closed spec fn spec_context(&self) -> Context {
        self.context
    }

    /// The type registry.
    pub closed spec fn spec_types(&self) -> TypeRegistry {
        self.types
    }

    /// The phase reached.
    pub closed spec fn spec_phase(&self) -> Phase {
        self.phase
    }

    /// An application around the registry `types`, with an empty root context
    /// named `root`.
    pub fn new(types: TypeRegistry) -> (app: App)
        requires
            types.wf(),
        ensures
            app.wf(),
            app.spec_phase() == Phase::Created,
            app.spec_types() == types,
            app.spec_context().is_empty_named("root"@),
            app.spec_context().init_plan().len() == 0,
    {
        let context = Context::new("root");
        proof {
            lemma_empty_plan(context);
        }
        App { context, types, phase: Phase::Created }
    }

    /// The root context.
    pub fn get_context(&self) -> (context: &Context)
        ensures
            *context == self.spec_context(),
    {
        &self.context
    }

    /// The root context and the registry, to register and to resolve with.
    pub fn parts(&mut self) -> (parts: (&mut Context, &mut TypeRegistry))
        ensures
            *parts.0 == old(self).spec_context(),
            *parts.1 == old(self).spec_types(),
            final(self).spec_context() == *final(parts.0),
            final(self).spec_types() == *final(parts.1),
            final(self).spec_phase() == old(self).spec_phase(),
    {
        (&mut self.context, &mut self.types)
    }

    /// The type registry.
    pub fn get_types(&self) -> (types: &TypeRegistry)
        ensures
            *types == self.spec_types(),
    {
        &self.types
    }

    /// The phase reached.
    pub fn phase(&self) -> (phase: Phase)
        ensures
            phase == self.spec_phase(),
    {
        self.phase
    }

    /// Attaches a child context to the root context, as `Context::add_context`
    /// says. The application then counts as assembled.
    pub fn add_context(&mut self, context: Context)
        requires
            old(self).wf(),
            context.wf(),
        ensures
            final(self).wf(),
            final(self).spec_phase() == Phase::ContextsAssembled,
            final(self).spec_types() == old(self).spec_types(),
            final(self).spec_context().same_but_children(&old(self).spec_context()),
            final(self).spec_context().children() == ({
                let kids = old(self).spec_context().children();
                let at = child_at(kids, context.spec_name());
                if at < kids.len() {
                    kids.update(at, context)
                } else {
                    kids.push(context)
                }
            }),
    {
        self.context.add_context(context);
        self.phase = Phase::ContextsAssembled;
    }

    /// Runs the deferred initialisers, as `Context::init_contexts` says. After
    /// a success the application is initialised; after a failure it is
    /// finished.
    pub fn initialize(&mut self) -> (r: Result<(), Error>)
        requires
            old(self).wf(),
        ensures
            final(self).wf(),
            final(self).spec_phase() == (if r is Ok {
                Phase::Initialized
            } else {
                Phase::Finished
            }),
            inits_ran(
                initialisers(old(self).spec_context().init_plan()),
                old(self).spec_context(),
                old(self).spec_types(),
                final(self).spec_context(),
                final(self).spec_types(),
                r,
            ),
            old(self).spec_context().init_plan().len() == 0 ==> r is Ok,
            old(self).spec_context().init_plan().len() == 0 ==> final(self).spec_context() == old(
                self,
            ).spec_context(),
            old(self).spec_context().init_plan().len() == 0 ==> final(self).spec_types() == old(
                self,
            ).spec_types(),
    {
        let r = self.context.init_contexts(&mut self.types);
        self.phase = if r.is_ok() {
            Phase::Initialized
        } else {
            Phase::Finished
        };
        r
    }

    /// The runners: every component that has the capability `R`, in the order
    /// in which `Context::get_beans` resolves them. After a success the runners
    /// count as resolved; after a failure the application is finished.
    pub fn resolve_runners<R: ?Sized + 'static>(&mut self) -> (r: Result<Vec<Arc<R>>, Error>)
        requires
            old(self).wf(),
        ensures
            final(self).wf(),
            final(self).spec_types() == old(self).spec_types(),
            final(self).spec_phase() == (if r is Ok {
                Phase::RunnersResolved
            } else {
                Phase::Finished
            }),
            exists|target: std::any::TypeId| #[trigger]
                beans_fit(
                    assignable_to(
                        old(self).spec_context().all_defs(),
                        old(self).spec_types(),
                        target,
                    ),
                    old(self).spec_types(),
                    target,
                    r,
                    old(self).spec_context(),
                    final(self).spec_context(),
                ),
    {
        let r = self.context.get_beans::<R>(&self.types);
        let ghost target = choose|target: std::any::TypeId| #[trigger]
            beans_fit(
                assignable_to(old(self).context.all_defs(), old(self).types, target),
                old(self).types,
                target,
                r,
                old(self).context,
                self.context,
            );
        self.phase = if r.is_ok() {
            Phase::RunnersResolved
        } else {
            Phase::Finished
        };
        proof {
            assert(beans_fit(
                assignable_to(
                    old(self).spec_context().all_defs(),
                    old(self).spec_types(),
                    target,
                ),
                old(self).spec_types(),
                target,
                r,
                old(self).spec_context(),
                self.spec_context(),
            ));
        }
        r
    }

    /// Notes that the runners were started.
    pub fn started(&mut self)
        ensures
            final(self).spec_phase() == Phase::Running,
            final(self).spec_context() == old(self).spec_context(),
            final(self).spec_types() == old(self).spec_types(),
    {
        self.phase = Phase::Running;
    }

    /// Ends the run with what became of each runner. The result is success
    /// where every runner ran to its end, and otherwise one failure that holds
    /// the message of every runner's failure, in the order of the outcomes. No
    /// outcome hides another: each failure is in the result.
    pub fn finish(&mut self, outcomes: &Vec<RunnerOutcome>) -> (r: Result<(), Error>)
        ensures
            final(self).spec_phase() == Phase::Finished,
            final(self).spec_context() == old(self).spec_context(),
            final(self).spec_types() == old(self).spec_types(),
            if complaints(outcomes@).len() == 0 {
                r is Ok
            } else {
                r matches Err(e) && e@ == (Failure::Combined { messages: complaints(outcomes@) })
            },
    {
        self.phase = Phase::Finished;
        collect_outcomes(outcomes)
    }
}

/// An application assembled from its two contexts: the one that holds the
/// configuration and the one that the modules filled, attached to the root in
/// that order.
pub fn create_app(types: TypeRegistry, config: Context, auto_registered: Context) -> (app: App)
    requires
        types.wf(),
        config.wf(),
        auto_registered.wf(),
    ensures
        app.wf(),
        app.spec_phase() == Phase::ContextsAssembled,
        app.spec_types() == types,
        app.spec_context().spec_name() == "root"@,
        app.spec_context().defs() == Seq::<BeanDef>::empty(),
        app.spec_context().cache() == Map::<Seq<char>, Handle>::empty(),
        app.spec_context().inits() == Seq::<(Seq<char>, SharedInit)>::empty(),
        app.spec_context().children() == (if config.spec_name() == auto_registered.spec_name() {
            seq![auto_registered]
        } else {
            seq![config, auto_registered]
        }),
{
    let mut app = App::new(types);
    proof {
        assert(app.spec_context().children() == Seq::<Context>::empty());
        assert(child_at(Seq::<Context>::empty(), config.spec_name()) == 0);
    }
    app.add_context(config);
    proof {
        let one = seq![config];
        assert(Seq::<Context>::empty().push(config) == one);
        assert(one.drop_first() == Seq::<Context>::empty());
        assert(child_at(one.drop_first(), auto_registered.spec_name()) == 0);
        assert(one.update(0, auto_registered) == seq![auto_registered]);
        assert(one.push(auto_registered) == seq![config, auto_registered]);
    }
    app.add_context(auto_registered);
    app
}

} // verus!
