use std::sync::Arc;
use std::sync::Mutex;

use vine_core::app::create_app;
use vine_core::app::App;
use vine_core::app::Phase;
use vine_core::auto_register_context::get_auto_register_context;
use vine_core::bean_def::BeanDef;
use vine_core::bean_def::BeanFactory;
use vine_core::bean_def::SharedFactory;
use vine_core::context::Context;
use vine_core::context::ContextInit;
use vine_core::context::SharedInit;
use vine_core::error::Error;
use vine_core::runner::collect_outcomes;
use vine_core::runner::runner_name;
use vine_core::runner::RunnerOutcome;
use vine_core::ty::Handle;
use vine_core::ty::Type;
use vine_core::ty::TypeRegistry;

trait Job {
    fn run(&self) -> Result<(), Error>;
}

struct Worker {
    log: Arc<Mutex<Vec<String>>>,
    name: &'static str,
    fail: bool,
}

impl Job for Worker {
    fn run(&self) -> Result<(), Error> {
        self.log.lock().unwrap().push(self.name.to_string());
        if self.fail {
            Err(Error::custom("worker broke down"))
        } else {
            Ok(())
        }
    }
}

struct MakeWorker {
    log: Arc<Mutex<Vec<String>>>,
    name: &'static str,
    fail: bool,
}

impl BeanFactory for MakeWorker {
    fn create(&self, _context: &mut Context, _types: &TypeRegistry) -> Result<Handle, Error> {
        Ok(Handle::new(Worker { log: self.log.clone(), name: self.name, fail: self.fail }))
    }
}

struct SetUpWorker {
    log: Arc<Mutex<Vec<String>>>,
    name: &'static str,
    fail: bool,
}

impl ContextInit for SetUpWorker {
    fn init(&self, context: &mut Context, types: &mut TypeRegistry) -> Result<(), Error> {
        let ty = Type::of::<Worker>(types, "app_tests::Worker");
        ty.add_downcast::<dyn Job + Send + Sync, _>(types, |b: Handle| {
            Ok(b.downcast::<Worker>()?)
        });
        context.register(
            BeanDef::builder()
                .name(self.name)
                .ty(ty)
                .get(SharedFactory::new(MakeWorker {
                    log: self.log.clone(),
                    name: self.name,
                    fail: self.fail,
                }))
                .build(),
        )
    }
}

struct Refuse;

impl ContextInit for Refuse {
    fn init(&self, _context: &mut Context, _types: &mut TypeRegistry) -> Result<(), Error> {
        Err(Error::custom("refused"))
    }
}

fn run_all(app: &mut App) -> Result<(), Error> {
    app.initialize()?;
    let runners = app.resolve_runners::<dyn Job + Send + Sync>()?;
    app.started();
    let outcomes: Vec<RunnerOutcome> = runners
        .iter()
        .map(|r| match r.run() {
            Ok(()) => RunnerOutcome::Done,
            Err(e) => RunnerOutcome::Failed(e),
        })
        .collect();
    app.finish(&outcomes)
}

#[test]
fn failing_runner_is_reported_and_every_runner_runs() {
    let log = Arc::new(Mutex::new(Vec::new()));
    let mut types = TypeRegistry::new();
    let setup = vec![
        SharedInit::new(SetUpWorker { log: log.clone(), name: "good", fail: false }),
        SharedInit::new(SetUpWorker { log: log.clone(), name: "bad", fail: true }),
        SharedInit::new(SetUpWorker { log: log.clone(), name: "late", fail: false }),
    ];
    let auto = get_auto_register_context(&setup, &mut types).unwrap();
    assert_eq!(auto.name(), "auto-registered");
    let mut app = create_app(types, Context::new("config"), auto);
    assert_eq!(app.phase(), Phase::ContextsAssembled);

    let r = run_all(&mut app);
    assert_eq!(app.phase(), Phase::Finished);
    let e = r.unwrap_err();
    assert_eq!(e, Error::Combined { messages: vec!["worker broke down".to_string()] });
    assert!(e.message().contains("worker broke down"));
    assert_eq!(*log.lock().unwrap(), vec!["good", "bad", "late"]);
}

#[test]
fn app_without_runners_succeeds() {
    let mut app = App::new(TypeRegistry::new());
    assert_eq!(app.phase(), Phase::Created);
    assert_eq!(app.get_context().name(), "root");
    assert_eq!(app.initialize(), Ok(()));
    assert_eq!(app.phase(), Phase::Initialized);
    let runners = app.resolve_runners::<dyn Job + Send + Sync>().unwrap();
    assert!(runners.is_empty());
    assert_eq!(app.phase(), Phase::RunnersResolved);
    app.started();
    assert_eq!(app.phase(), Phase::Running);
    assert_eq!(app.finish(&Vec::new()), Ok(()));
    assert_eq!(app.phase(), Phase::Finished);
}

#[test]
fn failing_initialiser_ends_the_app() {
    let mut app = App::new(TypeRegistry::new());
    let mut child = Context::new("child");
    child.add_init_fn("refuse", SharedInit::new(Refuse)).unwrap();
    app.add_context(child);
    assert_eq!(app.phase(), Phase::ContextsAssembled);
    assert_eq!(run_all(&mut app), Err(Error::custom("refused")));
    assert_eq!(app.phase(), Phase::Finished);
}

#[test]
fn failing_runner_factory_ends_the_app_before_any_runner_starts() {
    struct Broken;
    impl BeanFactory for Broken {
        fn create(&self, _c: &mut Context, _t: &TypeRegistry) -> Result<Handle, Error> {
            Err(Error::custom("cannot build"))
        }
    }
    let mut app = App::new(TypeRegistry::new());
    {
        let (context, types) = app.parts();
        let ty = Type::of::<Worker>(types, "Worker");
        ty.add_downcast::<dyn Job + Send + Sync, _>(types, |b: Handle| {
            Ok(b.downcast::<Worker>()?)
        });
        context
            .register(BeanDef::builder().name("w").ty(ty).get(SharedFactory::new(Broken)).build())
            .unwrap();
    }
    assert!(app.get_types().is_assignable(
        &std::any::TypeId::of::<Worker>(),
        &std::any::TypeId::of::<dyn Job + Send + Sync>()
    ));
    assert_eq!(
        run_all(&mut app),
        Err(Error::FactoryFailed { name: "w".to_string(), reason: "cannot build".to_string() })
    );
    assert_eq!(app.phase(), Phase::Finished);
}

#[test]
fn create_app_attaches_config_then_auto_registered() {
    let mut types = TypeRegistry::new();
    let log = Arc::new(Mutex::new(Vec::new()));
    let mut config = Context::new("config");
    SetUpWorker { log: log.clone(), name: "from config", fail: false }
        .init(&mut config, &mut types)
        .unwrap();
    let mut auto = Context::new("auto-registered");
    SetUpWorker { log: log.clone(), name: "from auto", fail: false }
        .init(&mut auto, &mut types)
        .unwrap();
    let app = create_app(types, config, auto);
    let names: Vec<String> = app
        .get_context()
        .get_bean_defs_within_context()
        .iter()
        .map(|d| d.name().to_string())
        .collect();
    assert_eq!(names, vec!["from config", "from auto"]);
}

#[test]
fn auto_registration_stops_at_the_first_failure() {
    let log = Arc::new(Mutex::new(Vec::new()));
    let mut types = TypeRegistry::new();
    let setup = vec![
        SharedInit::new(SetUpWorker { log: log.clone(), name: "a", fail: false }),
        SharedInit::new(Refuse),
        SharedInit::new(SetUpWorker { log: log.clone(), name: "b", fail: false }),
    ];
    let r = get_auto_register_context(&setup, &mut types);
    assert_eq!(r.err(), Some(Error::custom("refused")));
    let empty = get_auto_register_context(&Vec::new(), &mut types).unwrap();
    assert!(empty.get_bean_defs_within_context().is_empty());
    let twice = vec![
        SharedInit::new(SetUpWorker { log: log.clone(), name: "a", fail: false }),
        SharedInit::new(SetUpWorker { log: log.clone(), name: "a", fail: false }),
    ];
    let r = get_auto_register_context(&twice, &mut types);
    assert!(matches!(r, Err(Error::DuplicateComponent { .. })));
}

#[test]
fn outcomes_are_collected_in_order() {
    assert_eq!(collect_outcomes(&vec![]), Ok(()));
    assert_eq!(collect_outcomes(&vec![RunnerOutcome::Done, RunnerOutcome::Done]), Ok(()));
    let outcomes = vec![
        RunnerOutcome::Failed(Error::custom("first")),
        RunnerOutcome::Done,
        RunnerOutcome::TaskFailed("web".to_string()),
        RunnerOutcome::Failed(Error::NoCandidate),
    ];
    let e = collect_outcomes(&outcomes).unwrap_err();
    assert_eq!(
        e,
        Error::Combined {
            messages: vec![
                "first".to_string(),
                "failed to start runner web".to_string(),
                "no candidate bean of the wanted type".to_string(),
            ]
        }
    );
    assert_eq!(
        e.message(),
        "first\nfailed to start runner web\nno candidate bean of the wanted type"
    );
}

#[test]
fn runner_is_named_by_the_last_segment_of_its_type() {
    assert_eq!(runner_name("vine_axum::Web"), "Web");
    assert_eq!(runner_name("Web"), "Web");
    assert_eq!(runner_name(""), "");
    assert_eq!(runner_name("a::b::c"), "c");
    assert_eq!(runner_name("a::"), "");
    assert_eq!(runner_name("::a"), "a");
    assert_eq!(runner_name("a:::b"), "b");
    assert_eq!(runner_name("a:b"), "a:b");
    assert_eq!(runner_name("x::Wrap<y::Inner>"), "Inner>");
    for full in ["vine_axum::Web", "Web", "", "a::b::c", "a::", "::a", "a:::b", "a:b", "::", ":::"] {
        let theirs = match full.rsplit_once("::") {
            None => full,
            Some((_, name)) => name,
        };
        assert_eq!(runner_name(full), theirs, "{:?}", full);
    }
}
