use std::cell::{Cell, RefCell};
use std::future::Future;
use std::pin::Pin;
use std::rc::Rc;
use std::task::{Context, Poll, Waker};

use mettle::capability::{CapabilityDescriptor, CapabilityError, OperationSchema, SchemaType};
use mettle::duration::Duration;
use mettle::execution::ExecutionScope;
use mettle::executor::{
    cancelled_branches, ExecutionEvent, ExecutionEventKind, Reply, Request, RuntimeError, Stop,
    Task, Turn, World,
};
use mettle::metrics::{WorkloadKind, WorkloadPhase, WorkloadSnapshot};
use mettle::parallel::Branches;
use mettle::parser::parse;
use mettle::plan::ExecutionPlan;
use mettle::project::{compile, compile_with_capabilities};
use mettle::selection::{choose_flow, validate_capabilities};
use mettle::value::{Object, Value};
use mettle::workload::{plan_rate, Action, Event, Workload};

type Operation = Pin<Box<dyn Future<Output = Result<Value, CapabilityError>>>>;
type Sleep = Pin<Box<dyn Future<Output = ()>>>;
type Outcome = (Result<Value, RuntimeError>, Vec<String>);
type Run<'a> = Pin<Box<dyn Future<Output = Outcome> + 'a>>;

/// What surrounds an execution: operations, a clock and what was observed.
struct Surroundings {
    invoke: Box<dyn Fn() -> Operation>,
    sleep: Box<dyn Fn(Duration) -> Sleep>,
    now: Rc<Cell<u128>>,
    numbers: Cell<u64>,
    operations: Cell<usize>,
    workloads: RefCell<Vec<WorkloadSnapshot>>,
    cancelled: RefCell<Vec<usize>>,
    events: RefCell<Vec<ExecutionEvent>>,
}

impl Surroundings {
    fn new(invoke: Box<dyn Fn() -> Operation>, clock: TestClock) -> Self {
        let now = clock.now.clone();
        Surroundings {
            invoke,
            sleep: Box::new(move |duration| clock.sleep(duration)),
            now,
            numbers: Cell::new(1),
            operations: Cell::new(0),
            workloads: RefCell::new(Vec::new()),
            cancelled: RefCell::new(Vec::new()),
            events: RefCell::new(Vec::new()),
        }
    }

    fn moment(&self) -> Duration {
        Duration { nanos: self.now.get() }
    }
}

/// A clock that wakes at once, or never.
#[derive(Clone)]
struct TestClock {
    now: Rc<Cell<u128>>,
    sleeps: Rc<Cell<usize>>,
    moves: bool,
    pending: bool,
}

impl TestClock {
    fn immediate() -> Self {
        TestClock {
            now: Rc::new(Cell::new(0)),
            sleeps: Rc::new(Cell::new(0)),
            moves: true,
            pending: false,
        }
    }

    fn pending() -> Self {
        TestClock { pending: true, ..TestClock::immediate() }
    }

    fn sleep(&self, duration: Duration) -> Sleep {
        self.sleeps.set(self.sleeps.get() + 1);
        if self.pending {
            return Box::pin(std::future::pending());
        }
        if self.moves {
            self.now.set(self.now.get() + duration.nanos);
        }
        Box::pin(std::future::ready(()))
    }
}

fn run<'a>(
    world: &'a World<'a>,
    around: &'a Surroundings,
    turn: Box<dyn Fn(&Vec<Reply>) -> Turn<'a> + 'a>,
) -> Run<'a> {
    Box::pin(async move {
        let mut replies: Vec<Reply> = Vec::new();
        loop {
            let taken = turn(&replies);
            match taken.outcome {
                Ok(value) => return (Ok(value), taken.secrets),
                Err(Stop::Failed(error)) => return (Err(error), taken.secrets),
                Err(Stop::Waiting(request)) => {
                    let reply = answer(world, around, request).await;
                    replies.push(reply);
                }
            }
        }
    })
}

fn run_task<'a>(world: &'a World<'a>, around: &'a Surroundings, task: Task<'a>) -> Run<'a> {
    run(world, around, Box::new(move |replies: &Vec<Reply>| world.perform(task.duplicate(), replies)))
}

async fn answer<'a>(
    world: &'a World<'a>,
    around: &'a Surroundings,
    request: Request<'a>,
) -> Reply {
    match request {
        Request::Number => {
            let number = around.numbers.get();
            around.numbers.set(number + 1);
            Reply::Number(number)
        }
        Request::Echo { .. } => Reply::Done,
        Request::Report { .. } => {
            around.operations.set(around.operations.get() + 1);
            Reply::Done
        }
        Request::Merge { mut target, overrides, .. } => {
            mettle::value::merge_objects(&mut target, overrides);
            Reply::Merged(target)
        }
        Request::Invoke { .. } => Reply::Invoked((around.invoke)().await),
        Request::Sleep(duration) => {
            (around.sleep)(duration).await;
            Reply::Done
        }
        Request::Within { timeout, task } => {
            let mut work = run_task(world, around, task);
            let mut timer = (around.sleep)(timeout);
            let ended = std::future::poll_fn(|context| {
                if let Poll::Ready(outcome) = work.as_mut().poll(context) {
                    return Poll::Ready(Some(outcome));
                }
                if timer.as_mut().poll(context).is_ready() {
                    return Poll::Ready(None);
                }
                Poll::Pending
            })
            .await;
            match ended {
                Some((result, secrets)) => Reply::Ended { result: Some(result), secrets },
                None => Reply::Ended { result: None, secrets: Vec::new() },
            }
        }
        Request::Parallel { limit, tasks, .. } => {
            Reply::Joined(run_parallel(world, around, limit, tasks).await)
        }
        Request::Rate { target, period, duration, limit, task } => {
            let kind = plan_rate(target, period, duration, limit).expect("rate has a plan");
            Reply::Measured(run_workload(world, around, kind, task).await)
        }
        Request::Concurrency { limit, duration, task } => {
            let kind = WorkloadKind::Concurrency { limit, duration };
            Reply::Measured(run_workload(world, around, kind, task).await)
        }
    }
}

async fn run_parallel<'a>(
    world: &'a World<'a>,
    around: &'a Surroundings,
    limit: usize,
    tasks: Vec<Task<'a>>,
) -> Result<Vec<Value>, RuntimeError> {
    let mut branches = Branches::new(tasks.len(), limit);
    let mut running: Vec<Run<'a>> = Vec::new();
    while !branches.finished() {
        while let Some(index) = branches.start() {
            running.push(run_task(world, around, tasks[index].duplicate()));
        }
        assert!(branches.running() <= limit);
        let (position, outcome) = std::future::poll_fn(|context| {
            for (position, work) in running.iter_mut().enumerate() {
                if let Poll::Ready(outcome) = work.as_mut().poll(context) {
                    return Poll::Ready((position, outcome));
                }
            }
            Poll::Pending
        })
        .await;
        drop(running.swap_remove(position));
        match outcome.0 {
            Ok(value) => branches.complete(position, value),
            Err(error) => {
                let cancelled = branches.fail(position);
                let events = cancelled_branches(&tasks, &cancelled);
                around.events.borrow_mut().extend(events);
                *around.cancelled.borrow_mut() = cancelled;
                return Err(error);
            }
        }
    }
    Ok(branches.values())
}

async fn run_workload<'a>(
    world: &'a World<'a>,
    around: &'a Surroundings,
    kind: WorkloadKind,
    task: Task<'a>,
) -> Value {
    let mut workload = Workload::new(kind);
    let mut running: Vec<Run<'a>> = Vec::new();
    let mut event = Event::Begin;
    loop {
        let step = workload.next(event, around.moment());
        around.workloads.borrow_mut().extend(step.reports);
        event = match step.action.expect("events fit") {
            Action::Finish(value) => return value,
            Action::Start => {
                running.push(run_task(world, around, task.duplicate()));
                Event::Started
            }
            Action::Yield => Event::Yielded,
            Action::Poll => {
                let mut context = Context::from_waker(Waker::noop());
                let mut found = None;
                for (position, work) in running.iter_mut().enumerate() {
                    if let Poll::Ready(outcome) = work.as_mut().poll(&mut context) {
                        found = Some((position, outcome.0.is_ok()));
                        break;
                    }
                }
                match found {
                    Some((position, succeeded)) => {
                        drop(running.swap_remove(position));
                        Event::Completed { position, succeeded }
                    }
                    None => Event::Idle,
                }
            }
            Action::Wait { until } => {
                let now = around.moment();
                let length = until.nanos.saturating_sub(now.nanos);
                let mut timer: Option<Sleep> = None;
                let ended = std::future::poll_fn(|context| {
                    for (position, work) in running.iter_mut().enumerate() {
                        if let Poll::Ready(outcome) = work.as_mut().poll(context) {
                            return Poll::Ready(Some((position, outcome.0.is_ok())));
                        }
                    }
                    let timer =
                        timer.get_or_insert_with(|| (around.sleep)(Duration { nanos: length }));
                    match timer.as_mut().poll(context) {
                        Poll::Ready(()) => Poll::Ready(None),
                        Poll::Pending => Poll::Pending,
                    }
                })
                .await;
                match ended {
                    Some((position, succeeded)) => {
                        drop(running.swap_remove(position));
                        Event::Completed { position, succeeded }
                    }
                    None => Event::Elapsed,
                }
            }
        };
    }
}

fn block_on<F: Future>(future: F) -> F::Output {
    let mut context = Context::from_waker(Waker::noop());
    let mut future = Box::pin(future);
    loop {
        if let Poll::Ready(value) = future.as_mut().poll(&mut context) {
            return value;
        }
    }
}

fn execute(plan: &ExecutionPlan, around: &Surroundings) -> Result<Value, RuntimeError> {
    let environment: Vec<(String, String)> = Vec::new();
    let world = World { plan, environment: &environment };
    let names: Vec<String> = plan.capability_names.clone();
    validate_capabilities(plan, &names)?;
    let flow = choose_flow(plan)?;
    let world = &world;
    block_on(run(world, around, Box::new(move |replies: &Vec<Reply>| world.execute(flow, Vec::new(), replies)))).0
}

fn nothing() -> Box<dyn Fn() -> Operation> {
    Box::new(|| Box::pin(std::future::ready(Ok(Value::Null))))
}

fn quiet() -> Surroundings {
    Surroundings::new(nothing(), TestClock::immediate())
}

fn probe() -> CapabilityDescriptor {
    CapabilityDescriptor {
        name: "probe",
        defaults: vec![],
        operations: vec![OperationSchema {
            name: "wait",
            parameters: vec![],
            parameter_names: vec![],
            options: vec![],
            mutually_exclusive: vec![],
            result: SchemaType::Json,
        }],
    }
}

/// An operation that never ends, and notes when it is dropped.
struct Endless(Rc<Cell<bool>>);

impl Future for Endless {
    type Output = Result<Value, CapabilityError>;

    fn poll(self: Pin<&mut Self>, _context: &mut Context<'_>) -> Poll<Self::Output> {
        Poll::Pending
    }
}

impl Drop for Endless {
    fn drop(&mut self) {
        self.0.set(true);
    }
}

fn endless(dropped: &Rc<Cell<bool>>) -> Box<dyn Fn() -> Operation> {
    let dropped = dropped.clone();
    Box::new(move || Box::pin(Endless(dropped.clone())))
}

/// An operation that ends when it is asked a second time.
struct Brief {
    active: Rc<Cell<usize>>,
    maximum: Rc<Cell<usize>>,
    started: bool,
}

impl Future for Brief {
    type Output = Result<Value, CapabilityError>;

    fn poll(mut self: Pin<&mut Self>, _context: &mut Context<'_>) -> Poll<Self::Output> {
        if self.started {
            self.active.set(self.active.get() - 1);
            self.started = false;
            Poll::Ready(Ok(Value::Null))
        } else {
            self.started = true;
            self.active.set(self.active.get() + 1);
            self.maximum.set(self.maximum.get().max(self.active.get()));
            Poll::Pending
        }
    }
}

impl Drop for Brief {
    fn drop(&mut self) {
        if self.started {
            self.active.set(self.active.get() - 1);
        }
    }
}

fn brief(active: &Rc<Cell<usize>>, maximum: &Rc<Cell<usize>>) -> Box<dyn Fn() -> Operation> {
    let active = active.clone();
    let maximum = maximum.clone();
    Box::new(move || {
        Box::pin(Brief { active: active.clone(), maximum: maximum.clone(), started: false })
    })
}

fn plan_of(source: &str) -> ExecutionPlan {
    compile(&parse(source).expect("source should parse")).expect("source should compile")
}

fn probe_plan(source: &str) -> ExecutionPlan {
    let program = parse(source).expect("source should parse");
    compile_with_capabilities(&program, &vec![probe()]).expect("source should compile")
}

#[test]
fn lib_executes_bindings_and_nested_flow_calls() {
    let plan = plan_of(
        r#"
        flow identity(value) { return value }
        flow forward(value) { return identity(value) }
        flow main() {
            greeting = forward("Hello from Mettle")
            return greeting
        }
        "#,
    );
    assert_eq!(
        execute(&plan, &quiet()).expect("program should run"),
        Value::String("Hello from Mettle".to_owned())
    );
}

#[test]
fn lib_evaluates_assertions_and_comparisons() {
    let passing = plan_of(
        r#"
        flow main() {
            assert(10 > 5)
            assert("flow" != "rust")
            return true
        }
        "#,
    );
    assert_eq!(
        execute(&passing, &quiet()).expect("assertions should pass"),
        Value::Boolean(true)
    );

    let failing = plan_of("flow main() { assert(false)\n return null }");
    let error = execute(&failing, &quiet()).expect_err("false assertion should fail");
    assert_eq!(error.message, "assertion failed");
}

#[test]
fn lib_evaluates_objects_arrays_and_member_paths() {
    let plan = plan_of(
        r#"
        flow main() {
            response = {
                headers: { "content-type": "application/json" }
                roles: ["tester"]
            }
            return response.headers["content-type"]
        }
        "#,
    );
    assert_eq!(
        execute(&plan, &quiet()).expect("program should run"),
        Value::String("application/json".to_owned())
    );
}

#[test]
fn lib_parallel_preserves_source_order() {
    let plan = plan_of(
        r"
        flow first() = 1
        flow second() = 2
        flow third() = 3
        flow main() = parallel(limit: 2) { third(), first(), second() }
        ",
    );
    assert_eq!(
        execute(&plan, &quiet()).expect("parallel work should complete"),
        Value::Array(vec![Value::Integer(3), Value::Integer(1), Value::Integer(2)])
    );
}

#[test]
fn lib_deadline_drops_pending_child_work() {
    let plan = probe_plan("flow main() = within(timeout: 1s) { probe.wait() }");
    let dropped = Rc::new(Cell::new(false));
    let around = Surroundings::new(endless(&dropped), TestClock::immediate());
    let error = execute(&plan, &around).expect_err("deadline should expire");
    assert_eq!(error.message, "deadline exceeded after 1s");
    assert!(dropped.get());
}

#[test]
fn lib_retry_uses_the_injected_clock_and_reports_exhaustion() {
    let variable = "METTLE_RETRY_MISSING_1";
    let plan = plan_of(&format!(
        "flow main() = retry(attempts: 3, delay: 10ms) {{ env(\"{variable}\") }}"
    ));
    let clock = TestClock::immediate();
    let around = Surroundings::new(nothing(), clock.clone());
    let error = execute(&plan, &around).expect_err("retry should exhaust");
    assert!(error.message.starts_with("retry exhausted after 3 attempts:"));
    assert_eq!(clock.sleeps.get(), 2);
}

#[test]
fn lib_parallel_admission_never_exceeds_its_limit() {
    let branches = vec!["probe.wait()"; 100].join(", ");
    let plan = probe_plan(&format!("flow main() = parallel(limit: 7) {{ {branches} }}"));
    let active = Rc::new(Cell::new(0));
    let maximum = Rc::new(Cell::new(0));
    let around = Surroundings::new(brief(&active, &maximum), TestClock::immediate());
    let result = execute(&plan, &around).expect("parallel work should complete");
    let Value::Array(values) = result else {
        panic!("parallel should return an array");
    };
    assert_eq!(values.len(), 100);
    assert_eq!(maximum.get(), 7);
    assert_eq!(active.get(), 0);
}

#[test]
fn lib_failed_parallel_branch_cancels_and_joins_its_siblings() {
    let variable = "METTLE_PARALLEL_MISSING_1";
    let plan = probe_plan(&format!(
        "flow main() = parallel() {{ probe.wait(), env(\"{variable}\") }}"
    ));
    let dropped = Rc::new(Cell::new(false));
    let around = Surroundings::new(endless(&dropped), TestClock::pending());
    let error = execute(&plan, &around).expect_err("one branch should fail");
    assert!(error.message.contains("required environment variable"));
    assert!(dropped.get());
    assert_eq!(*around.cancelled.borrow(), vec![0]);
    let events = around.events.borrow();
    assert_eq!(events.len(), 1);
    assert_eq!(events[0].kind, ExecutionEventKind::BranchCancelled);
    assert!(matches!(
        events[0].scope_path.last(),
        Some(ExecutionScope::Parallel { branch: 1, .. })
    ));
}

#[test]
fn rate_returns_scoped_metrics_and_supports_assertions() {
    let plan = plan_of(
        r"
        flow main() {
            load = rate(target: 4, period: 1s, duration: 1s, limit: 2) { true }
            assert(load.count == 4)
            assert(load.success == 4)
            assert(load.failed == 0)
            assert(load.dropped == 0)
            assert(load.latency.p95 >= 0ms)
            return load
        }
        ",
    );
    let result = execute(&plan, &quiet()).expect("rate workload should complete");
    let Value::Object(result) = result else {
        panic!("rate should return an object");
    };
    assert_eq!(result.get("count"), Some(&Value::Integer(4)));
    assert!(matches!(result.get("latency"), Some(Value::Object(_))));
    assert!(matches!(result.get("rate"), Some(Value::Object(_))));
}

#[test]
fn rate_drops_starts_instead_of_growing_an_overload_queue() {
    let plan = probe_plan(
        "flow main() = rate(target: 4, period: 1s, duration: 1s, limit: 2) { probe.wait() }",
    );
    let dropped = Rc::new(Cell::new(false));
    let around = Surroundings::new(endless(&dropped), TestClock::immediate());
    let result =
        execute(&plan, &around).expect("saturated rate workload should return metrics");
    let Value::Object(result) = result else {
        panic!("rate should return an object");
    };
    assert_eq!(result.get("started"), Some(&Value::Integer(2)));
    assert_eq!(result.get("dropped"), Some(&Value::Integer(2)));
    assert_eq!(result.get("saturated"), Some(&Value::Boolean(true)));
    assert_eq!(result.get("drainTimedOut"), Some(&Value::Boolean(true)));
    assert!(dropped.get());
}

#[test]
fn cancelling_a_workload_drops_its_active_iterations() {
    let plan = probe_plan(
        "flow main() = rate(target: 1, period: 1s, duration: 1s, limit: 1) { probe.wait() }",
    );
    let dropped = Rc::new(Cell::new(false));
    let around = Surroundings::new(endless(&dropped), TestClock::pending());
    let environment: Vec<(String, String)> = Vec::new();
    let world = World { plan: &plan, environment: &environment };
    {
        let shared = &world;
        let mut execution =
            run(shared, &around, Box::new(move |replies: &Vec<Reply>| shared.execute(0, Vec::new(), replies)));
        let mut context = Context::from_waker(Waker::noop());
        assert!(execution.as_mut().poll(&mut context).is_pending());
        assert!(execution.as_mut().poll(&mut context).is_pending());
        drop(execution);
    }
    assert!(dropped.get());
}

#[test]
fn concurrency_owns_and_drains_its_fixed_active_set() {
    let plan = probe_plan("flow main() = concurrency(limit: 3, duration: 1s) { probe.wait() }");
    let active = Rc::new(Cell::new(0));
    let maximum = Rc::new(Cell::new(0));
    let clock = TestClock { moves: false, ..TestClock::immediate() };
    let around = Surroundings::new(brief(&active, &maximum), clock);
    let result = execute(&plan, &around).expect("concurrency workload should complete");
    let Value::Object(result) = result else {
        panic!("concurrency should return an object");
    };
    assert_eq!(result.get("count"), Some(&Value::Integer(3)));
    assert_eq!(maximum.get(), 3);
    assert_eq!(active.get(), 0);
}

#[test]
fn observer_receives_operations_and_bounded_workload_snapshots() {
    let operation_plan = probe_plan("flow main() = probe.wait()");
    let active = Rc::new(Cell::new(0));
    let maximum = Rc::new(Cell::new(0));
    let around = Surroundings::new(brief(&active, &maximum), TestClock::immediate());
    execute(&operation_plan, &around).expect("operation should complete");
    assert_eq!(around.operations.get(), 1);

    let workload_plan =
        plan_of("flow main() = rate(target: 4, period: 1s, duration: 1s, limit: 2) { true }");
    let clock = TestClock { moves: false, ..TestClock::immediate() };
    let around = Surroundings::new(nothing(), clock);
    execute(&workload_plan, &around).expect("workload should complete");
    let workloads = around.workloads.borrow();
    assert_eq!(workloads.first().map(|value| value.phase), Some(WorkloadPhase::Starting));
    assert_eq!(workloads.last().map(|value| value.phase), Some(WorkloadPhase::Completed));
    assert!(workloads.len() <= 8, "snapshots should remain bounded");
}

#[test]
fn sensitive_texts_do_not_reach_messages() {
    let program = parse("flow main(token) { fail(\"no access with ${token}\") }")
        .expect("source should parse");
    let plan = compile(&program).expect("source should compile");
    let environment: Vec<(String, String)> = Vec::new();
    let world = World { plan: &plan, environment: &environment };
    let secret = Value::String("hunter2".to_owned()).sensitive();
    let turn = world.execute(0, vec![secret], &Vec::new());
    match turn.outcome {
        Err(Stop::Failed(error)) => assert!(!error.message.contains("hunter2")),
        _ => panic!("the flow fails"),
    }
}

#[test]
fn texts_with_sensitive_parts_are_sensitive() {
    let program = parse("flow main(token, plain) = [\"a ${token} b\", \"a ${plain} b\"]")
        .expect("source should parse");
    let plan = compile(&program).expect("source should compile");
    let environment: Vec<(String, String)> = Vec::new();
    let world = World { plan: &plan, environment: &environment };
    let secret = Value::Array(vec![Value::String("hunter2".to_owned()).sensitive()]);
    let plain = Value::String("open".to_owned());
    let turn = world.execute(0, vec![secret, plain], &Vec::new());
    let Ok(Value::Array(values)) = turn.outcome else {
        panic!("the flow returns two texts");
    };
    assert!(values[0].is_sensitive());
    assert_eq!(values[0].exposed_string(), "a [\"hunter2\"] b");
    assert_eq!(values[1], Value::String("a open b".to_owned()));
}

#[test]
fn retries_return_the_first_success() {
    let plan = plan_of("flow main() = retry(attempts: 3, delay: 10ms) { 7 }");
    let clock = TestClock::immediate();
    let around = Surroundings::new(nothing(), clock.clone());
    assert_eq!(execute(&plan, &around).expect("the first attempt succeeds"), Value::Integer(7));
    assert_eq!(clock.sleeps.get(), 0);
}

#[test]
fn tests_go_on_after_assertions_that_fail() {
    let plan = plan_of("test(\"two\") { assert(false, \"first\")\n assert(false, \"second\") }");
    let environment: Vec<(String, String)> = Vec::new();
    let world = World { plan: &plan, environment: &environment };
    let turn = world.execute(0, Vec::new(), &Vec::new());
    match turn.outcome {
        Err(Stop::Failed(error)) => {
            assert_eq!(error.assertions.len(), 2);
            assert!(error.assertion_only);
        }
        _ => panic!("the test fails"),
    }
}

#[test]
fn calls_with_too_few_values_are_refused() {
    let plan = plan_of("flow main(value) = value");
    let environment: Vec<(String, String)> = Vec::new();
    let world = World { plan: &plan, environment: &environment };
    let turn = world.execute(0, Vec::new(), &Vec::new());
    assert!(matches!(turn.outcome, Err(Stop::Failed(_))));
}

#[test]
fn capabilities_have_to_be_those_of_the_plan() {
    let plan = probe_plan("flow main() = probe.wait()");
    let missing = validate_capabilities(&plan, &Vec::new()).expect_err("one is missing");
    assert_eq!(missing.message, "execution plan and runtime have different capability sets");
    let other = validate_capabilities(&plan, &vec!["http".to_owned()]).expect_err("another");
    assert_eq!(other.message, "execution plan expected capability `probe`, found `http`");
    assert!(validate_capabilities(&plan, &vec!["probe".to_owned()]).is_ok());
}

#[test]
fn flows_have_to_be_chosen_where_several_have_no_main() {
    let plan = plan_of("flow one() = 1\nflow two() = 2");
    let error = choose_flow(&plan).expect_err("two flows");
    assert_eq!(error.message, "execution requires an explicitly selected flow");
    let only = plan_of("flow one() = 1");
    assert_eq!(choose_flow(&only).expect("one flow"), 0);
}

#[test]
fn merged_options_reach_operations() {
    let mut target = Object::new();
    target.insert("a".to_owned(), Value::Integer(1));
    let mut overrides = Object::new();
    overrides.insert("a".to_owned(), Value::Integer(2));
    mettle::value::merge_objects(&mut target, overrides);
    assert_eq!(target.get("a"), Some(&Value::Integer(2)));
}

#[test]
fn workloads_stop_starting_and_end() {
    let kind = WorkloadKind::Concurrency { limit: 1, duration: Duration::from_nanos(10) };
    let mut workload = Workload::new(kind);
    let at = |nanos: u128| Duration { nanos };
    assert_eq!(workload.next(Event::Begin, at(0)).action, Some(Action::Start));
    let step = workload.next(Event::Started, at(1));
    assert!(matches!(step.action, Some(Action::Wait { .. })));
    let step = workload.next(Event::Elapsed, at(10));
    let thirty_seconds = 30_000_000_000;
    let Some(Action::Wait { until }) = step.action else {
        panic!("the last iteration is waited for");
    };
    assert!(until.nanos <= 10 + thirty_seconds);
    let step = workload.next(Event::Elapsed, at(10 + thirty_seconds));
    let Some(Action::Finish(Value::Object(result))) = step.action else {
        panic!("the time to drain is over");
    };
    assert_eq!(result.get("failed"), Some(&Value::Integer(1)));
    assert_eq!(workload.next(Event::Elapsed, at(10 + thirty_seconds)).action, None);
}

#[test]
fn outcomes_do_not_change_with_more_replies() {
    let plan = plan_of("flow main() = retry(attempts: 2, delay: 1s) { env(\"ABSENT\") }");
    let environment: Vec<(String, String)> = Vec::new();
    let world = World { plan: &plan, environment: &environment };
    let first = world.execute(0, Vec::new(), &Vec::new());
    assert!(matches!(first.outcome, Err(Stop::Waiting(Request::Number))));
    let wrong = world.execute(0, Vec::new(), &vec![Reply::Done]);
    assert!(matches!(wrong.outcome, Err(Stop::Waiting(Request::Number))));
    assert_eq!(wrong.used, 0);
    let second = world.execute(0, Vec::new(), &vec![Reply::Number(1)]);
    assert_eq!(second.used, 1);
    match second.outcome {
        Err(Stop::Waiting(Request::Sleep(delay))) => assert_eq!(delay.nanos, 1_000_000_000),
        _ => panic!("the second attempt comes later"),
    }
    let told = world.execute(0, Vec::new(), &vec![Reply::Number(1), Reply::Done]);
    let more = world.execute(0, Vec::new(), &vec![Reply::Number(1), Reply::Done, Reply::Done]);
    assert_eq!((told.used, more.used), (2, 2));
    match (told.outcome, more.outcome) {
        (Err(Stop::Failed(one)), Err(Stop::Failed(other))) => assert_eq!(one, other),
        _ => panic!("both attempts fail"),
    }
}

#[test]
fn known_secrets_outlast_deadlines() {
    let plan = plan_of("flow main() = within(timeout: 1s) { 7 }");
    let environment: Vec<(String, String)> = Vec::new();
    let world = World { plan: &plan, environment: &environment };
    let turn = world.execute(0, Vec::new(), &Vec::new());
    let Err(Stop::Waiting(Request::Within { mut task, .. })) = turn.outcome else {
        panic!("the task runs on its own");
    };
    task.secrets = vec!["hunter2".to_owned()];
    let turn = world.perform(task, &Vec::new());
    assert!(matches!(turn.outcome, Ok(Value::Integer(7))));
    assert_eq!(turn.secrets, vec!["hunter2".to_owned()]);
    let ended = Reply::Ended { result: None, secrets: vec!["new".to_owned()] };
    let turn = world.execute(0, Vec::new(), &vec![ended]);
    assert_eq!(turn.secrets, vec!["new".to_owned()]);
    match turn.outcome {
        Err(Stop::Failed(error)) => assert_eq!(error.message, "deadline exceeded after 1s"),
        _ => panic!("the time is over"),
    }
}

#[test]
fn senv_is_short_for_secret_env() {
    let environment = vec![("KEY".to_owned(), "hunter2".to_owned())];
    let outcome = |source: &str| {
        let plan = plan_of(source);
        let world = World { plan: &plan, environment: &environment };
        match world.execute(0, Vec::new(), &Vec::new()).outcome {
            Ok(value) => value,
            Err(_) => panic!("the variable is there"),
        }
    };
    let short = outcome("flow main() = senv(\"KEY\")");
    assert_eq!(short, outcome("flow main() = secret(env(\"KEY\"))"));
    assert!(matches!(short, Value::Sensitive(_)));
}

#[test]
fn full_rates_drop_what_is_due() {
    let second = Duration::from_nanos(1_000_000_000);
    let kind = plan_rate(2, second, second, 1).expect("two iterations");
    let mut workload = Workload::new(kind);
    let at = |nanos: u128| Duration { nanos };
    let mut step = workload.next(Event::Begin, at(0));
    let mut started = 0;
    loop {
        step = match step.action.expect("events fit") {
            Action::Start => {
                started += 1;
                workload.next(Event::Started, at(0))
            }
            Action::Poll => workload.next(Event::Idle, at(500_000_000)),
            Action::Yield => workload.next(Event::Yielded, at(0)),
            Action::Wait { until } if started == 1 && until.nanos < 30_000_000_000 => {
                workload.next(Event::Elapsed, until)
            }
            Action::Wait { .. } => {
                let done = Event::Completed { position: 0, succeeded: true };
                workload.next(done, at(600_000_000))
            }
            Action::Finish(Value::Object(result)) => {
                assert_eq!(result.get("started"), Some(&Value::Integer(1)));
                assert_eq!(result.get("dropped"), Some(&Value::Integer(1)));
                return;
            }
            Action::Finish(_) => panic!("the result is an object"),
        };
    }
}
