use std::sync::atomic::AtomicUsize;
use std::sync::atomic::Ordering;
use std::sync::Arc;

use vine_core::bean_def::BeanDef;
use vine_core::bean_def::BeanFactory;
use vine_core::bean_def::BeanHook;
use vine_core::bean_def::SharedHook;
use vine_core::bean_def::run_hooks;
use vine_core::bean_def::SharedFactory;
use vine_core::context::Context;
use vine_core::context::ContextInit;
use vine_core::context::RegisterBean;
use vine_core::context::Resolution;
use vine_core::context::SharedInit;
use vine_core::error::Error;
use vine_core::ty::Handle;
use vine_core::ty::Type;
use vine_core::ty::TypeRegistry;

struct TestBean {
    name: &'static str,
}

trait TestTrait {
    fn name(&self) -> &'static str;
}

impl TestTrait for TestBean {
    fn name(&self) -> &'static str {
        self.name
    }
}

struct MakeTestBean {
    name: &'static str,
}

impl BeanFactory for MakeTestBean {
    fn create(&self, _context: &mut Context, _types: &TypeRegistry) -> Result<Handle, Error> {
        Ok(Handle::new(TestBean { name: self.name }))
    }
}

struct CountingFactory {
    calls: Arc<AtomicUsize>,
}

impl BeanFactory for CountingFactory {
    fn create(&self, _context: &mut Context, _types: &TypeRegistry) -> Result<Handle, Error> {
        self.calls.fetch_add(1, Ordering::SeqCst);
        Ok(Handle::new(TestBean { name: "counted" }))
    }
}

struct FailingFactory;

impl BeanFactory for FailingFactory {
    fn create(&self, _context: &mut Context, _types: &TypeRegistry) -> Result<Handle, Error> {
        Err(Error::custom("no luck"))
    }
}

struct TestBeanWithDep {
    dyn_dep: Arc<dyn TestTrait + Sync + Send>,
}

struct MakeTestBeanWithDep;

impl BeanFactory for MakeTestBeanWithDep {
    fn create(&self, context: &mut Context, types: &TypeRegistry) -> Result<Handle, Error> {
        let bean = TestBeanWithDep { dyn_dep: context.get_bean(types, "testBean")? };
        Ok(Handle::new(bean))
    }
}

fn test_bean_type(types: &mut TypeRegistry) -> Type {
    let ty = Type::of::<TestBean>(types, "TestBean");
    ty.add_downcast::<TestBean, _>(types, |b: Handle| b.downcast::<TestBean>());
    ty.add_downcast::<dyn TestTrait + Sync + Send, _>(types, |b: Handle| {
        Ok(b.downcast::<TestBean>()?)
    });
    ty
}

fn test_bean_def(types: &mut TypeRegistry, name: &str, instance: &'static str) -> BeanDef {
    BeanDef::builder()
        .ty(test_bean_type(types))
        .name(name)
        .get(SharedFactory::new(MakeTestBean { name: instance }))
        .build()
}

#[test]
fn register_types_bean_def_then_should_return_and_cast_to_struct_and_dyn_trait() -> Result<(), Error>
{
    let mut types = TypeRegistry::new();
    let mut ctx = Context::new("test-context");

    let ty = test_bean_type(&mut types);

    let bean_def = BeanDef::builder()
        .ty(ty)
        .name("testBean")
        .get(SharedFactory::new(MakeTestBean { name: "instance_of_testBean" }))
        .build();

    ctx.register(bean_def)?;

    let bean = ctx.get_bean::<TestBean>(&types, "testBean")?;
    assert_eq!(bean.as_ref().name, "instance_of_testBean");

    let bean = ctx.get_bean::<dyn TestTrait + Sync + Send>(&types, "testBean")?;
    assert_eq!(bean.name(), "instance_of_testBean");

    Ok(())
}

#[test]
fn should_create_and_get_bean_with_dyn_dep() -> Result<(), Error> {
    let mut types = TypeRegistry::new();
    let mut ctx = Context::new("test-context");

    let ty = test_bean_type(&mut types);

    let bean_def = BeanDef::builder()
        .ty(ty)
        .name("testBean")
        .get(SharedFactory::new(MakeTestBean { name: "instance_of_testBean" }))
        .build();
    ctx.register(bean_def)?;

    let ty = Type::of::<TestBeanWithDep>(&mut types, "TestBeanWithDep");
    ty.add_downcast::<TestBeanWithDep, _>(&mut types, |b: Handle| b.downcast::<TestBeanWithDep>());

    let bean_def = BeanDef::builder()
        .ty(ty)
        .name("testBeanWithDep")
        .get(SharedFactory::new(MakeTestBeanWithDep))
        .build();
    ctx.register(bean_def)?;

    let bean_dep = ctx.get_bean::<TestBean>(&types, "testBean")?;
    assert_eq!(bean_dep.name, "instance_of_testBean");

    let bean = ctx.get_bean::<TestBeanWithDep>(&types, "testBeanWithDep")?;
    assert_eq!(bean.dyn_dep.name(), "instance_of_testBean");
    Ok(())
}

#[test]
fn dependency_is_built_on_demand_and_shared() {
    let mut types = TypeRegistry::new();
    let mut ctx = Context::new("test-context");
    ctx.register(test_bean_def(&mut types, "testBean", "dep")).unwrap();
    let ty = Type::of::<TestBeanWithDep>(&mut types, "TestBeanWithDep");
    ty.add_downcast::<TestBeanWithDep, _>(&mut types, |b: Handle| b.downcast::<TestBeanWithDep>());
    ctx.register(
        BeanDef::builder().ty(ty).name("outer").get(SharedFactory::new(MakeTestBeanWithDep)).build(),
    )
    .unwrap();

    let outer = ctx.get_bean::<TestBeanWithDep>(&types, "outer").unwrap();
    let dep = ctx.get_bean::<dyn TestTrait + Sync + Send>(&types, "testBean").unwrap();
    assert!(Arc::ptr_eq(&outer.dyn_dep, &dep));
}

#[test]
fn second_register_with_same_name_fails_and_first_stays_resolvable() {
    let mut types = TypeRegistry::new();
    let mut ctx = Context::new("ctx");
    ctx.register(test_bean_def(&mut types, "bean", "first")).unwrap();
    let r = ctx.register(test_bean_def(&mut types, "bean", "second"));
    assert_eq!(
        r,
        Err(Error::DuplicateComponent {
            name: "bean".to_string(),
            ty_name: "TestBean".to_string(),
            context: "ctx".to_string(),
        })
    );
    let bean = ctx.get_bean::<TestBean>(&types, "bean").unwrap();
    assert_eq!(bean.name, "first");
    assert_eq!(ctx.get_bean_defs_within_context().len(), 1);
}

#[test]
fn register_asks_this_context_only() {
    let mut types = TypeRegistry::new();
    let mut child = Context::new("child");
    child.register(test_bean_def(&mut types, "bean", "of child")).unwrap();
    let mut parent = Context::new("parent");
    parent.add_context(child);
    parent.register(test_bean_def(&mut types, "bean", "of parent")).unwrap();
    let bean = parent.get_bean::<TestBean>(&types, "bean").unwrap();
    assert_eq!(bean.name, "of parent");
    let names: Vec<String> =
        parent.get_bean_defs_within_context().iter().map(|d| d.name().to_string()).collect();
    assert_eq!(names, vec!["bean".to_string(), "bean".to_string()]);
}

#[test]
fn get_bean_twice_returns_the_same_instance() {
    let mut types = TypeRegistry::new();
    let mut ctx = Context::new("ctx");
    let calls = Arc::new(AtomicUsize::new(0));
    let def = BeanDef::builder()
        .ty(test_bean_type(&mut types))
        .name("bean")
        .get(SharedFactory::new(CountingFactory { calls: calls.clone() }))
        .build();
    ctx.register(def).unwrap();

    let first = ctx.get_bean::<TestBean>(&types, "bean").unwrap();
    let second = ctx.get_bean::<TestBean>(&types, "bean").unwrap();
    assert!(Arc::ptr_eq(&first, &second));
    assert_eq!(calls.load(Ordering::SeqCst), 1);

    let handle = ctx.get_handle(&types, "bean").unwrap();
    let third = handle.downcast::<TestBean>().ok().unwrap();
    assert!(Arc::ptr_eq(&first, &third));
    assert_eq!(calls.load(Ordering::SeqCst), 1);
}

#[test]
fn get_bean_of_unknown_name_fails_with_not_found() {
    let types = TypeRegistry::new();
    let mut ctx = Context::new("ctx");
    let r = ctx.get_bean::<TestBean>(&types, "nothing");
    assert_eq!(
        r.err(),
        Some(Error::NotFound { name: "nothing".to_string(), context: "ctx".to_string() })
    );
    assert!(ctx.get_bean_def("nothing").is_none());
    assert!(matches!(ctx.resolve("nothing"), Resolution::Missing));
}

#[test]
fn failing_factory_gives_factory_failed_and_caches_nothing() {
    let mut types = TypeRegistry::new();
    let mut ctx = Context::new("ctx");
    let def = BeanDef::builder()
        .ty(test_bean_type(&mut types))
        .name("bean")
        .get(SharedFactory::new(FailingFactory))
        .build();
    ctx.register(def).unwrap();
    let r = ctx.get_bean::<TestBean>(&types, "bean");
    assert_eq!(
        r.err(),
        Some(Error::FactoryFailed { name: "bean".to_string(), reason: "no luck".to_string() })
    );
    assert!(matches!(ctx.resolve("bean"), Resolution::Build(_)));
}

#[test]
fn failure_of_a_dependency_is_wrapped_by_each_factory() {
    let mut types = TypeRegistry::new();
    let mut ctx = Context::new("ctx");
    let ty = Type::of::<TestBeanWithDep>(&mut types, "TestBeanWithDep");
    ctx.register(
        BeanDef::builder().ty(ty).name("outer").get(SharedFactory::new(MakeTestBeanWithDep)).build(),
    )
    .unwrap();
    let r = ctx.get_handle(&types, "outer");
    assert_eq!(
        r.err(),
        Some(Error::FactoryFailed {
            name: "outer".to_string(),
            reason: "cannot resolve Bean(name=testBean) in Context(name=ctx)".to_string(),
        })
    );
}

#[test]
fn settle_caches_and_reports_an_unexpected_duplicate() {
    let mut types = TypeRegistry::new();
    let mut ctx = Context::new("ctx");
    let def = test_bean_def(&mut types, "bean", "unused");

    let first = Handle::new(TestBean { name: "first" });
    let out = ctx.settle(&def, Ok(first)).unwrap();
    assert_eq!(out.downcast::<TestBean>().ok().unwrap().name, "first");
    match ctx.resolve("bean") {
        Resolution::Cached(h) => assert_eq!(h.downcast::<TestBean>().ok().unwrap().name, "first"),
        _ => panic!("the component is cached"),
    }

    let second = Handle::new(TestBean { name: "second" });
    let r = ctx.settle(&def, Ok(second));
    assert_eq!(
        r.err(),
        Some(Error::UnexpectedDuplicate {
            name: "bean".to_string(),
            ty_name: "TestBean".to_string(),
            context: "ctx".to_string(),
        })
    );
    match ctx.resolve("bean") {
        Resolution::Cached(h) => assert_eq!(h.downcast::<TestBean>().ok().unwrap().name, "second"),
        _ => panic!("the component is cached"),
    }

    let r = ctx.settle(&def, Err(Error::custom("broken")));
    assert_eq!(
        r.err(),
        Some(Error::FactoryFailed { name: "bean".to_string(), reason: "broken".to_string() })
    );
}

#[test]
fn primary_bean_without_candidate_fails_with_no_candidate() {
    let mut types = TypeRegistry::new();
    let mut ctx = Context::new("ctx");
    let r = ctx.get_primary_bean::<dyn TestTrait + Sync + Send>(&types);
    assert_eq!(r.err(), Some(Error::NoCandidate));
    ctx.register(test_bean_def(&mut types, "bean", "x")).unwrap();
    let r = ctx.get_primary_bean::<TestBeanWithDep>(&types);
    assert_eq!(r.err(), Some(Error::NoCandidate));
}

#[test]
fn primary_bean_is_found_however_deep_it_is_registered() {
    let mut types = TypeRegistry::new();
    let mut deepest = Context::new("deepest");
    deepest.register(test_bean_def(&mut types, "bean", "deep")).unwrap();
    let mut middle = Context::new("middle");
    middle.add_context(Context::new("empty"));
    middle.add_context(deepest);
    let mut root = Context::new("root");
    root.add_context(middle);

    let bean = root.get_primary_bean::<dyn TestTrait + Sync + Send>(&types).unwrap();
    assert_eq!(bean.name(), "deep");
    assert_eq!(
        root.primary_name(&types, &std::any::TypeId::of::<TestBean>()),
        Ok("bean".to_string())
    );
}

#[test]
fn primary_bean_with_several_candidates_fails_with_ambiguous_candidate() {
    let mut types = TypeRegistry::new();
    let mut ctx = Context::new("ctx");
    ctx.register(test_bean_def(&mut types, "a", "a")).unwrap();
    let mut child = Context::new("child");
    child.register(test_bean_def(&mut types, "b", "b")).unwrap();
    ctx.add_context(child);
    let r = ctx.get_primary_bean::<TestBean>(&types);
    assert_eq!(r.err(), Some(Error::AmbiguousCandidate { count: 2 }));
}

#[test]
fn get_beans_discovers_a_grandchild_registration() {
    let mut types = TypeRegistry::new();
    let mut child = Context::new("child");
    child.register(test_bean_def(&mut types, "cfg", "from child")).unwrap();
    let mut parent = Context::new("parent");
    parent.add_context(child);
    let mut grandparent = Context::new("grandparent");
    grandparent.add_context(parent);

    let beans = grandparent.get_beans::<dyn TestTrait + Sync + Send>(&types).unwrap();
    assert_eq!(beans.len(), 1);
    assert_eq!(beans[0].name(), "from child");
}

#[test]
fn get_beans_walks_parents_before_children_in_order() {
    let mut types = TypeRegistry::new();
    let mut first = Context::new("first");
    first.register(test_bean_def(&mut types, "c", "c")).unwrap();
    let mut inner = Context::new("inner");
    inner.register(test_bean_def(&mut types, "d", "d")).unwrap();
    first.add_context(inner);
    let mut second = Context::new("second");
    second.register(test_bean_def(&mut types, "e", "e")).unwrap();
    let mut root = Context::new("root");
    root.add_context(first);
    root.add_context(second);
    root.register(test_bean_def(&mut types, "a", "a")).unwrap();
    root.register(test_bean_def(&mut types, "b", "b")).unwrap();

    let beans = root.get_beans::<TestBean>(&types).unwrap();
    let names: Vec<&str> = beans.iter().map(|b| b.name).collect();
    assert_eq!(names, vec!["a", "b", "c", "d", "e"]);
    let by_type = root.get_bean_defs_by_type(&types, &std::any::TypeId::of::<TestBean>());
    assert_eq!(by_type.len(), 5);
    let none = root.get_beans::<TestBeanWithDep>(&types).unwrap();
    assert!(none.is_empty());
}

#[test]
fn get_beans_stops_at_the_first_failure() {
    let mut types = TypeRegistry::new();
    let mut ctx = Context::new("ctx");
    ctx.register(test_bean_def(&mut types, "a", "a")).unwrap();
    ctx.register(
        BeanDef::builder()
            .ty(test_bean_type(&mut types))
            .name("b")
            .get(SharedFactory::new(FailingFactory))
            .build(),
    )
    .unwrap();
    let r = ctx.get_beans::<TestBean>(&types);
    assert_eq!(
        r.err(),
        Some(Error::FactoryFailed { name: "b".to_string(), reason: "no luck".to_string() })
    );
}

#[test]
fn add_context_replaces_a_child_of_the_same_name() {
    let mut types = TypeRegistry::new();
    let mut old = Context::new("child");
    old.register(test_bean_def(&mut types, "old", "old")).unwrap();
    let mut new = Context::new("child");
    new.register(test_bean_def(&mut types, "new", "new")).unwrap();
    let mut root = Context::new("root");
    root.add_context(old);
    root.add_context(Context::new("other"));
    root.add_context(new);
    assert!(root.get_bean_def("old").is_none());
    assert_eq!(root.get_bean_def("new").unwrap().name(), "new");
    assert_eq!(root.name(), "root");
}

#[test]
fn bean_def_is_named_after_its_type_by_default() {
    let mut types = TypeRegistry::new();
    let def = BeanDef::builder()
        .ty(test_bean_type(&mut types))
        .get(SharedFactory::new(MakeTestBean { name: "x" }))
        .build();
    assert_eq!(def.name(), "TestBean");
    assert_eq!(def.ty().name(), "TestBean");
    assert_eq!(def.display(), "BeanDef(name=TestBean, type=TestBean)");
    assert_eq!(def.ty().display(), "Type(TestBean)");
    assert_eq!(Context::new("some name").display(), "Context(name=some name)");
    let copy = def.duplicate();
    assert_eq!(copy.name(), "TestBean");
    let mut ctx = Context::new("ctx");
    let (name, handle) = def.get(&mut ctx, &types).unwrap();
    assert_eq!(name, "TestBean");
    assert_eq!(handle.downcast::<TestBean>().ok().unwrap().name, "x");
}

struct Note {
    log: Arc<std::sync::Mutex<Vec<String>>>,
    text: &'static str,
    fail: bool,
}

impl ContextInit for Note {
    fn init(&self, context: &mut Context, _types: &mut TypeRegistry) -> Result<(), Error> {
        self.log.lock().unwrap().push(format!("{}@{}", self.text, context.name()));
        if self.fail {
            Err(Error::custom(self.text))
        } else {
            Ok(())
        }
    }
}

fn note(log: &Arc<std::sync::Mutex<Vec<String>>>, text: &'static str) -> SharedInit {
    SharedInit::new(Note { log: log.clone(), text, fail: false })
}

#[test]
fn init_contexts_runs_the_last_initialiser_of_each_name_against_the_root() {
    let log = Arc::new(std::sync::Mutex::new(Vec::new()));
    let mut types = TypeRegistry::new();
    let mut child = Context::new("child");
    child.add_init_fn("a", note(&log, "child a")).unwrap();
    child.add_init_fn("b", note(&log, "child b")).unwrap();
    let mut other = Context::new("other");
    other.add_init_fn("b", note(&log, "other b")).unwrap();
    other.add_init_fn("c", note(&log, "other c")).unwrap();
    let mut root = Context::new("root");
    root.add_context(child);
    root.add_context(other);
    root.add_init_fn("c", note(&log, "root c, first")).unwrap();
    root.add_init_fn("d", note(&log, "root d")).unwrap();
    root.add_init_fn("c", note(&log, "root c")).unwrap();

    let plan: Vec<String> =
        root.get_init_context_fns().iter().map(|(name, _)| name.clone()).collect();
    assert_eq!(plan, vec!["a", "b", "c", "d"]);

    root.init_contexts(&mut types).unwrap();
    assert_eq!(
        *log.lock().unwrap(),
        vec!["child a@root", "other b@root", "root c@root", "root d@root"]
    );
}

#[test]
fn init_contexts_stops_at_the_first_failure() {
    let log = Arc::new(std::sync::Mutex::new(Vec::new()));
    let mut types = TypeRegistry::new();
    let mut root = Context::new("root");
    root.add_init_fn("a", note(&log, "a")).unwrap();
    root.add_init_fn("b", SharedInit::new(Note { log: log.clone(), text: "b", fail: true }))
        .unwrap();
    root.add_init_fn("c", note(&log, "c")).unwrap();
    let r = root.init_contexts(&mut types);
    assert_eq!(r, Err(Error::custom("b")));
    assert_eq!(*log.lock().unwrap(), vec!["a@root", "b@root"]);
    let mut empty = Context::new("empty");
    assert_eq!(empty.init_contexts(&mut types), Ok(()));
}

struct RegisterLate;

impl ContextInit for RegisterLate {
    fn init(&self, context: &mut Context, types: &mut TypeRegistry) -> Result<(), Error> {
        context.register(test_bean_def(types, "late", "late"))
    }
}

#[test]
fn register_bean_registers_its_descriptor() {
    let mut types = TypeRegistry::new();
    let def = test_bean_def(&mut types, "bean", "registered");
    let mut root = Context::new("root");
    root.add_init_fn("bean", SharedInit::new(RegisterBean::new(def))).unwrap();
    root.init_contexts(&mut types).unwrap();
    assert_eq!(root.get_bean::<TestBean>(&types, "bean").unwrap().name, "registered");
    assert_eq!(
        root.init_contexts(&mut types),
        Err(Error::DuplicateComponent {
            name: "bean".to_string(),
            ty_name: "TestBean".to_string(),
            context: "root".to_string(),
        })
    );
}

#[test]
fn an_initialiser_may_register_descriptors() {
    let mut types = TypeRegistry::new();
    let mut root = Context::new("root");
    root.add_init_fn("register", SharedInit::new(RegisterLate)).unwrap();
    assert!(root.get_bean_def("late").is_none());
    root.init_contexts(&mut types).unwrap();
    let bean = root.get_bean::<TestBean>(&types, "late").unwrap();
    assert_eq!(bean.name, "late");
    let again = root.init_contexts(&mut types);
    assert!(matches!(again, Err(Error::DuplicateComponent { .. })));
}

struct Mark {
    log: Arc<std::sync::Mutex<Vec<String>>>,
    text: &'static str,
    fail: bool,
}

impl BeanHook for Mark {
    fn run(&self, context: &mut Context, _types: &TypeRegistry, handle: &Handle) -> Result<(), Error> {
        let bean = handle.share().downcast::<TestBean>().ok().unwrap();
        self.log.lock().unwrap().push(format!("{} {} in {}", self.text, bean.name, context.name()));
        if self.fail {
            Err(Error::custom(self.text))
        } else {
            Ok(())
        }
    }
}

fn mark(log: &Arc<std::sync::Mutex<Vec<String>>>, text: &'static str, fail: bool) -> SharedHook {
    SharedHook::new(Mark { log: log.clone(), text, fail })
}

#[test]
fn hooks_accumulate_and_run_in_the_order_of_their_registration() {
    let log = Arc::new(std::sync::Mutex::new(Vec::new()));
    let mut types = TypeRegistry::new();
    let def = BeanDef::builder()
        .init(mark(&log, "first", false))
        .ty(test_bean_type(&mut types))
        .destroy(mark(&log, "last", false))
        .name("bean")
        .init(mark(&log, "second", false))
        .get(SharedFactory::new(MakeTestBean { name: "b" }))
        .destroy(mark(&log, "very last", false))
        .build();
    let mut ctx = Context::new("ctx");
    let (_, handle) = def.get(&mut ctx, &types).unwrap();
    assert_eq!(def.init(&mut ctx, &types, &handle), Ok(()));
    assert_eq!(*log.lock().unwrap(), vec!["first b in ctx", "second b in ctx"]);
    log.lock().unwrap().clear();
    assert_eq!(def.duplicate().destroy(&mut ctx, &types, &handle), Ok(()));
    assert_eq!(*log.lock().unwrap(), vec!["last b in ctx", "very last b in ctx"]);
}

#[test]
fn failing_hook_ends_the_run_of_the_hooks() {
    let log = Arc::new(std::sync::Mutex::new(Vec::new()));
    let mut types = TypeRegistry::new();
    let def = BeanDef::builder()
        .ty(test_bean_type(&mut types))
        .get(SharedFactory::new(MakeTestBean { name: "b" }))
        .init(mark(&log, "one", false))
        .init(mark(&log, "two", true))
        .init(mark(&log, "three", false))
        .build();
    let mut ctx = Context::new("ctx");
    let handle = Handle::new(TestBean { name: "b" });
    assert_eq!(def.init(&mut ctx, &types, &handle), Err(Error::custom("two")));
    assert_eq!(*log.lock().unwrap(), vec!["one b in ctx", "two b in ctx"]);
    assert_eq!(def.destroy(&mut ctx, &types, &handle), Ok(()));
    assert_eq!(run_hooks(&Vec::new(), &mut ctx, &types, &handle), Ok(()));
}

#[test]
fn capabilities_are_resolved_by_the_identity_given() {
    let mut types = TypeRegistry::new();
    let mut ctx = Context::new("ctx");
    ctx.register(test_bean_def(&mut types, "a", "a")).unwrap();
    let as_bean = std::any::TypeId::of::<TestBean>();
    let as_dep = std::any::TypeId::of::<TestBeanWithDep>();

    assert_eq!(ctx.get_bean_as::<TestBean>(&types, "a", &as_bean).unwrap().name, "a");
    assert_eq!(ctx.get_primary_bean_as::<TestBean>(&types, &as_bean).unwrap().name, "a");
    assert_eq!(
        ctx.get_primary_bean_as::<TestBeanWithDep>(&types, &as_dep).err(),
        Some(Error::NoCandidate)
    );
    assert_eq!(
        ctx.get_bean_as::<TestBeanWithDep>(&types, "a", &as_bean).err(),
        Some(Error::DowncastMismatch { ty_name: "TestBean".to_string() })
    );
    ctx.register(test_bean_def(&mut types, "b", "b")).unwrap();
    let beans = ctx.get_beans_as::<TestBean>(&types, &as_bean).unwrap();
    assert_eq!(beans.iter().map(|b| b.name).collect::<Vec<_>>(), vec!["a", "b"]);
    assert!(ctx.get_beans_as::<TestBeanWithDep>(&types, &as_dep).unwrap().is_empty());
    assert_eq!(
        ctx.get_primary_bean_as::<TestBean>(&types, &as_bean).err(),
        Some(Error::AmbiguousCandidate { count: 2 })
    );
}

#[test]
fn a_descriptor_registered_on_an_attached_child_is_visible_from_the_parent() {
    let mut types = TypeRegistry::new();
    let mut parent = Context::new("parent");
    parent.add_context(Context::new("other"));
    parent.add_context(Context::new("child"));
    assert_eq!(parent.find_context("child"), Some(1));
    assert_eq!(parent.find_context("nobody"), None);
    assert!(parent.get_bean::<TestBean>(&types, "late").is_err());

    let at = parent.find_context("child").unwrap();
    parent.context_at_mut(at).register(test_bean_def(&mut types, "late", "late")).unwrap();
    assert_eq!(parent.context_at(at).name(), "child");
    assert_eq!(parent.context_at(at).get_bean_def("late").unwrap().name(), "late");
    assert_eq!(parent.get_bean::<TestBean>(&types, "late").unwrap().name, "late");
    assert_eq!(parent.get_bean_defs_within_context().len(), 1);
}

#[test]
fn a_factory_runs_against_the_context_the_query_was_made_on() {
    struct NameOfContext;
    impl BeanFactory for NameOfContext {
        fn create(&self, context: &mut Context, _types: &TypeRegistry) -> Result<Handle, Error> {
            Ok(Handle::new(context.name().to_string()))
        }
    }
    let mut types = TypeRegistry::new();
    let ty = Type::of::<String>(&mut types, "String");
    ty.add_downcast::<String, _>(&mut types, |b: Handle| b.downcast::<String>());
    let mut leaf = Context::new("leaf");
    leaf.register(
        BeanDef::builder().ty(ty).name("A").get(SharedFactory::new(NameOfContext)).build(),
    )
    .unwrap();
    let mut mid = Context::new("mid");
    mid.add_context(leaf);
    let mut root = Context::new("root");
    root.add_context(mid);
    assert_eq!(*root.get_bean::<String>(&types, "A").unwrap(), "root");
    let at = root.find_context("mid").unwrap();
    assert_eq!(*root.context_at_mut(at).get_bean::<String>(&types, "A").unwrap(), "mid");
    assert_eq!(*root.get_bean::<String>(&types, "A").unwrap(), "root");
}
