//! Which flows of a plan are run.

use vstd::prelude::*;
use vstd::string::*;

use crate::execution::RuntimeErrorModel;
use crate::executor::{failure_models, RuntimeError};
use crate::plan::{
    flow_plan_models, optional_number, ExecutionPlan, ExecutionPlanModel, MettlePlan,
    MettlePlanModel,
};
use crate::positions::{location, source_location};
use crate::sources::{document_models, DocumentModel, SourceDocument};
use crate::syntax::{DeclarationKind, Span};
use crate::text::{decimal, decimal_text, join, joined, pad, padded, same, views, wrapped};

verus! {

// ---------------------------------------------------------------------------
// Declarations of a kind

/// The numbers of the declarations of a kind, from `from` on.
pub open spec fn declared(
    flows: Seq<MettlePlanModel>,
    kind: DeclarationKind,
    from: int,
    done: Seq<usize>,
) -> Seq<usize>
    decreases flows.len() - from,
{
    if from < 0 || from >= flows.len() {
        done
    } else if flows[from].kind == kind {
        declared(flows, kind, from + 1, done.push(from as usize))
    } else {
        declared(flows, kind, from + 1, done)
    }
}

/// The numbers of the declarations of a kind, in order.
pub fn declarations(plan: &ExecutionPlan, kind: DeclarationKind) -> (ids: Vec<usize>)
    ensures
        ids@ == declared(plan.model().flows, kind, 0, Seq::empty()),
{
    let ghost flows = plan.model().flows;
    let mut ids: Vec<usize> = Vec::new();
    let mut at: usize = 0;
    proof {
        assert(ids@ =~= Seq::empty());
    }
    while at < plan.flows.len()
        invariant
            flows == flow_plan_models(plan.flows@),
            at <= plan.flows@.len(),
            declared(flows, kind, 0, Seq::empty()) == declared(flows, kind, at as int, ids@),
        decreases plan.flows@.len() - at,
    {
        proof {
            assert(flows[at as int] == plan.flows@[at as int].model());
        }
        if plan.flows[at].kind == kind {
            ids.push(at);
        }
        at += 1;
    }
    ids
}

/// The flow that runs when none is asked for: the default one, or the only one.
pub open spec fn unasked(plan: ExecutionPlanModel) -> Option<int> {
    let ids = declared(plan.flows, DeclarationKind::Flow, 0, Seq::empty());
    match plan.default_flow {
        Some(id) => Some(id),
        None => if ids.len() == 1 {
            Some(ids[0] as int)
        } else {
            None
        },
    }
}

/// The flow that runs when none is asked for.
pub fn default_flow(plan: &ExecutionPlan) -> (id: Option<usize>)
    ensures
        optional_number(id) == unasked(plan.model()),
{
    let ids: Vec<usize> = declarations(plan, DeclarationKind::Flow);
    match plan.default_flow {
        Some(id) => Some(id),
        None => if ids.len() == 1 {
            Some(ids[0])
        } else {
            None
        },
    }
}

// ---------------------------------------------------------------------------
// What is checked before a run

pub open spec fn plain_error(message: Seq<char>) -> RuntimeErrorModel {
    RuntimeErrorModel {
        message,
        span: Span { source: 0, start: 0, end: 0 },
        flow_stack: Seq::empty(),
        scope_path: Seq::empty(),
        assertions: Seq::empty(),
        assertion_only: false,
    }
}

fn make_error(message: String) -> (error: RuntimeError)
    ensures
        error.model() == plain_error(message@),
{
    let error: RuntimeError = RuntimeError {
        message,
        span: Span { source: 0, start: 0, end: 0 },
        flow_stack: Vec::new(),
        scope_path: Vec::new(),
        assertions: Vec::new(),
        assertion_only: false,
    };
    proof {
        assert(views(error.flow_stack@) =~= Seq::empty());
        assert(error.scope_path@ =~= Seq::empty());
        assert(failure_models(error.assertions@) =~= Seq::empty());
    }
    error
}

/// The flow that runs when none is asked for, or the error where that is
/// not clear.
pub fn choose_flow(plan: &ExecutionPlan) -> (result: Result<usize, RuntimeError>)
    ensures
        match result {
            Ok(id) => unasked(plan.model()) == Some(id as int),
            Err(error) => unasked(plan.model()) is None && error.model() == plain_error(
                "execution requires an explicitly selected flow"@,
            ),
        },
{
    match default_flow(plan) {
        Some(id) => Ok(id),
        None => Err(make_error("execution requires an explicitly selected flow".to_owned())),
    }
}

/// The first capability from `from` on that is not the one expected.
pub open spec fn capability_fault(
    expected: Seq<Seq<char>>,
    actual: Seq<Seq<char>>,
    from: int,
) -> Option<Seq<char>>
    decreases expected.len() - from,
{
    if expected.len() != actual.len() {
        Some("execution plan and runtime have different capability sets"@)
    } else if from < 0 || from >= expected.len() {
        None
    } else if expected[from] != actual[from] {
        Some(
            "execution plan expected capability `"@ + expected[from] + "`, found `"@ + actual[from]
                + "`"@,
        )
    } else {
        capability_fault(expected, actual, from + 1)
    }
}

/// Checks that the capabilities are those that the plan was made for.
pub fn validate_capabilities(plan: &ExecutionPlan, names: &Vec<String>) -> (result: Result<
    (),
    RuntimeError,
>)
    ensures
        match result {
            Ok(_) => capability_fault(plan.model().capability_names, views(names@), 0) is None,
            Err(error) => capability_fault(plan.model().capability_names, views(names@), 0)
                matches Some(message) && error.model() == plain_error(message),
        },
{
    let ghost expected = plan.model().capability_names;
    let ghost actual = views(names@);
    if plan.capability_names.len() != names.len() {
        return Err(
            make_error("execution plan and runtime have different capability sets".to_owned()),
        );
    }
    let mut at: usize = 0;
    while at < names.len()
        invariant
            expected == plan.model().capability_names,
            expected == views(plan.capability_names@),
            actual == views(names@),
            plan.capability_names@.len() == names@.len(),
            at <= names@.len(),
            capability_fault(expected, actual, 0) == capability_fault(
                expected,
                actual,
                at as int,
            ),
        decreases names@.len() - at,
    {
        proof {
            assert(expected[at as int] == plan.capability_names@[at as int]@);
            assert(actual[at as int] == names@[at as int]@);
        }
        if !same(plan.capability_names[at].as_str(), names[at].as_str()) {
            let start: String = wrapped(
                "execution plan expected capability `",
                plan.capability_names[at].as_str(),
                "`, found `",
            );
            return Err(make_error(wrapped(start.as_str(), names[at].as_str(), "`")));
        }
        at += 1;
    }
    Ok(())
}

// ---------------------------------------------------------------------------
// Selectors

/// How a flow is asked for.
#[derive(Debug, PartialEq, Eq)]
pub enum MettleSelector {
    Name(String),
    Line(usize),
    Id(usize),
}

pub enum SelectorModel {
    Name(Seq<char>),
    Line(usize),
    Id(usize),
}

impl MettleSelector {
    pub open spec fn model(self) -> SelectorModel {
        match self {
            MettleSelector::Name(name) => SelectorModel::Name(name@),
            MettleSelector::Line(line) => SelectorModel::Line(line),
            MettleSelector::Id(id) => SelectorModel::Id(id),
        }
    }
}

pub open spec fn optional_selector(selector: Option<MettleSelector>) -> Option<SelectorModel> {
    match selector {
        Some(selector) => Some(selector.model()),
        None => None,
    }
}

/// The first flow with a name, from `from` on.
pub open spec fn flow_named(flows: Seq<MettlePlanModel>, name: Seq<char>, from: int) -> Option<int>
    decreases flows.len() - from,
{
    if from < 0 || from >= flows.len() {
        None
    } else if flows[from].kind == DeclarationKind::Flow && flows[from].name == Some(name) {
        Some(from)
    } else {
        flow_named(flows, name, from + 1)
    }
}

/// The flows of a file that begin on a line, from `from` on.
pub open spec fn flows_on(
    flows: Seq<MettlePlanModel>,
    entry: usize,
    text: Seq<char>,
    line: usize,
    from: int,
    done: Seq<usize>,
) -> Seq<usize>
    decreases flows.len() - from,
{
    if from < 0 || from >= flows.len() {
        done
    } else if flows[from].span.source == entry && flows[from].kind == DeclarationKind::Flow
        && location(text, flows[from].span.start as int).0 == line {
        flows_on(flows, entry, text, line, from + 1, done.push(from as usize))
    } else {
        flows_on(flows, entry, text, line, from + 1, done)
    }
}

/// The flow that is asked for. Where there is none, the message, and whether
/// the flows that there are should be listed with it.
pub open spec fn selected(
    plan: ExecutionPlanModel,
    entry: usize,
    text: Seq<char>,
    selector: Option<SelectorModel>,
) -> Result<int, (Seq<char>, bool)> {
    match selector {
        Some(SelectorModel::Name(name)) => match flow_named(plan.flows, name, 0) {
            Some(id) => Ok(id),
            None => Err(("flow `"@ + name + "` was not found"@, true)),
        },
        Some(SelectorModel::Line(line)) => {
            let found = flows_on(plan.flows, entry, text, line, 0, Seq::empty());
            if found.len() > 1 {
                Err(("more than one flow starts on line "@ + decimal(line as nat), false))
            } else if found.len() == 1 {
                Ok(found[0] as int)
            } else {
                Err(("no flow starts on line "@ + decimal(line as nat), true))
            }
        },
        Some(SelectorModel::Id(id)) => if id < plan.flows.len() && plan.flows[id as int].kind
            == DeclarationKind::Flow {
            Ok(id as int)
        } else {
            Err(("no flow has compiler ID "@ + decimal(id as nat), true))
        },
        None => match unasked(plan) {
            Some(id) => Ok(id),
            None => if declared(plan.flows, DeclarationKind::Flow, 0, Seq::empty()).len() == 0 {
                Err(("this source contains no flows"@, true))
            } else {
                Err(("no default flow was found; select one by name or line"@, true))
            },
        },
    }
}

pub open spec fn selection_model(result: Result<usize, (String, bool)>) -> Result<
    int,
    (Seq<char>, bool),
> {
    match result {
        Ok(id) => Ok(id as int),
        Err((message, list)) => Err((message@, list)),
    }
}

fn find_named(plan: &ExecutionPlan, name: &str) -> (id: Option<usize>)
    ensures
        optional_number(id) == flow_named(plan.model().flows, name@, 0),
{
    let ghost flows = plan.model().flows;
    let mut at: usize = 0;
    while at < plan.flows.len()
        invariant
            flows == plan.model().flows,
            flows == flow_plan_models(plan.flows@),
            at <= plan.flows@.len(),
            flow_named(flows, name@, 0) == flow_named(flows, name@, at as int),
        decreases plan.flows@.len() - at,
    {
        proof {
            assert(flows[at as int] == plan.flows@[at as int].model());
        }
        if plan.flows[at].kind == DeclarationKind::Flow {
            if let Some(found) = &plan.flows[at].name {
                if same(found.as_str(), name) {
                    return Some(at);
                }
            }
        }
        at += 1;
    }
    None
}

fn find_on_line(plan: &ExecutionPlan, entry: usize, text: &str, line: usize) -> (ids: Vec<usize>)
    ensures
        ids@ == flows_on(plan.model().flows, entry, text@, line, 0, Seq::empty()),
{
    let ghost flows = plan.model().flows;
    let mut ids: Vec<usize> = Vec::new();
    let mut at: usize = 0;
    proof {
        assert(ids@ =~= Seq::empty());
    }
    while at < plan.flows.len()
        invariant
            flows == plan.model().flows,
            flows == flow_plan_models(plan.flows@),
            at <= plan.flows@.len(),
            flows_on(flows, entry, text@, line, 0, Seq::empty()) == flows_on(
                flows,
                entry,
                text@,
                line,
                at as int,
                ids@,
            ),
        decreases plan.flows@.len() - at,
    {
        proof {
            assert(flows[at as int] == plan.flows@[at as int].model());
        }
        let flow: &MettlePlan = &plan.flows[at];
        if flow.span.source == entry && flow.kind == DeclarationKind::Flow {
            let place: (usize, usize) = source_location(text, flow.span.start);
            if place.0 == line {
                ids.push(at);
            }
        }
        at += 1;
    }
    ids
}

fn with_number(text: &str, number: usize) -> (whole: String)
    ensures
        whole@ == text@ + decimal(number as nat),
{
    let mut whole: String = text.to_owned();
    whole.append(decimal_text(number as u128).as_str());
    whole
}

/// The flow that is asked for. Lines are those of the file `entry` with the
/// given text.
pub fn select_flow(
    plan: &ExecutionPlan,
    entry: usize,
    text: &str,
    selector: &Option<MettleSelector>,
) -> (result: Result<usize, (String, bool)>)
    ensures
        selection_model(result) == selected(
            plan.model(),
            entry,
            text@,
            optional_selector(*selector),
        ),
{
    match selector {
        Some(MettleSelector::Name(name)) => match find_named(plan, name.as_str()) {
            Some(id) => Ok(id),
            None => Err((wrapped("flow `", name.as_str(), "` was not found"), true)),
        },
        Some(MettleSelector::Line(line)) => {
            let found: Vec<usize> = find_on_line(plan, entry, text, *line);
            if found.len() > 1 {
                Err((with_number("more than one flow starts on line ", *line), false))
            } else if found.len() == 1 {
                Ok(found[0])
            } else {
                Err((with_number("no flow starts on line ", *line), true))
            }
        },
        Some(MettleSelector::Id(id)) => {
            if *id < plan.flows.len() {
                proof {
                    assert(plan.model().flows[*id as int] == plan.flows@[*id as int].model());
                }
                if plan.flows[*id].kind == DeclarationKind::Flow {
                    return Ok(*id);
                }
            }
            Err((with_number("no flow has compiler ID ", *id), true))
        },
        None => match default_flow(plan) {
            Some(id) => Ok(id),
            None => {
                let ids: Vec<usize> = declarations(plan, DeclarationKind::Flow);
                if ids.len() == 0 {
                    Err(("this source contains no flows".to_owned(), true))
                } else {
                    Err(
                        (
                            "no default flow was found; select one by name or line".to_owned(),
                            true,
                        ),
                    )
                }
            },
        },
    }
}

// ---------------------------------------------------------------------------
// Batches

/// Whether a declaration belongs to a batch: a test of the file, or a flow of
/// the file without parameters.
pub open spec fn in_batch(flow: MettlePlanModel, kind: DeclarationKind, entry: usize) -> bool {
    &&& flow.kind == kind
    &&& flow.span.source == entry
    &&& kind == DeclarationKind::Test || flow.parameters.len() == 0
}

/// The batch, from `from` on.
pub open spec fn batch_of(
    flows: Seq<MettlePlanModel>,
    kind: DeclarationKind,
    entry: usize,
    from: int,
    done: Seq<usize>,
) -> Seq<usize>
    decreases flows.len() - from,
{
    if from < 0 || from >= flows.len() {
        done
    } else if in_batch(flows[from], kind, entry) {
        batch_of(flows, kind, entry, from + 1, done.push(from as usize))
    } else {
        batch_of(flows, kind, entry, from + 1, done)
    }
}

/// All tests of a file, or all its flows without parameters.
pub fn batch(plan: &ExecutionPlan, kind: DeclarationKind, entry: usize) -> (ids: Vec<usize>)
    ensures
        ids@ == batch_of(plan.model().flows, kind, entry, 0, Seq::empty()),
{
    let ghost flows = plan.model().flows;
    let mut ids: Vec<usize> = Vec::new();
    let mut at: usize = 0;
    proof {
        assert(ids@ =~= Seq::empty());
    }
    while at < plan.flows.len()
        invariant
            flows == plan.model().flows,
            flows == flow_plan_models(plan.flows@),
            at <= plan.flows@.len(),
            batch_of(flows, kind, entry, 0, Seq::empty()) == batch_of(
                flows,
                kind,
                entry,
                at as int,
                ids@,
            ),
        decreases plan.flows@.len() - at,
    {
        proof {
            assert(flows[at as int] == plan.flows@[at as int].model());
        }
        let flow: &MettlePlan = &plan.flows[at];
        if flow.kind == kind && flow.span.source == entry && (kind == DeclarationKind::Test
            || flow.parameters.len() == 0) {
            ids.push(at);
        }
        at += 1;
    }
    ids
}

// ---------------------------------------------------------------------------
// Tests

/// Whether a declaration is the test that a selector asks for.
pub open spec fn is_asked(
    flows: Seq<MettlePlanModel>,
    id: int,
    text: Seq<char>,
    selector: SelectorModel,
) -> bool {
    match selector {
        SelectorModel::Name(name) => flows[id].display_name == name,
        SelectorModel::Line(line) => location(text, flows[id].span.start as int).0 == line,
        SelectorModel::Id(asked) => id == asked,
    }
}

/// The tests of a file that a selector asks for, from `from` on.
pub open spec fn tests_asked(
    flows: Seq<MettlePlanModel>,
    entry: usize,
    text: Seq<char>,
    selector: SelectorModel,
    from: int,
    done: Seq<usize>,
) -> Seq<usize>
    decreases flows.len() - from,
{
    if from < 0 || from >= flows.len() {
        done
    } else if in_batch(flows[from], DeclarationKind::Test, entry) && is_asked(
        flows,
        from,
        text,
        selector,
    ) {
        tests_asked(flows, entry, text, selector, from + 1, done.push(from as usize))
    } else {
        tests_asked(flows, entry, text, selector, from + 1, done)
    }
}

/// What is said where a selector asks for no test.
pub open spec fn no_test(selector: SelectorModel) -> Seq<char> {
    match selector {
        SelectorModel::Name(name) => "test `"@ + name + "` was not found"@,
        SelectorModel::Line(line) => "no test starts on line "@ + decimal(line as nat),
        SelectorModel::Id(id) => "no test has compiler ID "@ + decimal(id as nat),
    }
}

/// What is said where a selector asks for several tests.
pub open spec fn several_tests(selector: SelectorModel) -> Seq<char> {
    match selector {
        SelectorModel::Name(name) => "more than one test is named `"@ + name + "`"@,
        SelectorModel::Line(line) => "more than one test starts on line "@ + decimal(line as nat),
        SelectorModel::Id(id) => "more than one test has compiler ID "@ + decimal(id as nat),
    }
}

/// The tests that are asked for: one of the file, or all of them where nothing
/// is selected.
pub open spec fn tests_of(
    plan: ExecutionPlanModel,
    entry: usize,
    text: Seq<char>,
    selector: Option<SelectorModel>,
) -> Result<Seq<usize>, Seq<char>> {
    match selector {
        None => Ok(batch_of(plan.flows, DeclarationKind::Test, entry, 0, Seq::empty())),
        Some(selector) => {
            let found = tests_asked(plan.flows, entry, text, selector, 0, Seq::empty());
            if found.len() == 0 {
                Err(no_test(selector))
            } else if found.len() > 1 {
                Err(several_tests(selector))
            } else {
                Ok(found)
            }
        },
    }
}

pub open spec fn tests_model(result: Result<Vec<usize>, String>) -> Result<Seq<usize>, Seq<char>> {
    match result {
        Ok(ids) => Ok(ids@),
        Err(message) => Err(message@),
    }
}

fn matches_selector(
    plan: &ExecutionPlan,
    id: usize,
    text: &str,
    selector: &MettleSelector,
) -> (yes: bool)
    requires
        id < plan.flows@.len(),
    ensures
        yes == is_asked(plan.model().flows, id as int, text@, selector.model()),
{
    proof {
        assert(plan.model().flows[id as int] == plan.flows@[id as int].model());
    }
    match selector {
        MettleSelector::Name(name) => same(plan.flows[id].display_name.as_str(), name.as_str()),
        MettleSelector::Line(line) => {
            let place: (usize, usize) = source_location(text, plan.flows[id].span.start);
            place.0 == *line
        },
        MettleSelector::Id(asked) => id == *asked,
    }
}

/// The tests that are asked for. Lines are those of the file `entry` with the
/// given text.
pub fn select_tests(
    plan: &ExecutionPlan,
    entry: usize,
    text: &str,
    selector: &Option<MettleSelector>,
) -> (result: Result<Vec<usize>, String>)
    ensures
        tests_model(result) == tests_of(plan.model(), entry, text@, optional_selector(*selector)),
{
    let selector: &MettleSelector = match selector {
        None => {
            return Ok(batch(plan, DeclarationKind::Test, entry));
        },
        Some(selector) => selector,
    };
    let ghost flows = plan.model().flows;
    let ghost asked = selector.model();
    let mut ids: Vec<usize> = Vec::new();
    let mut at: usize = 0;
    proof {
        assert(ids@ =~= Seq::empty());
    }
    while at < plan.flows.len()
        invariant
            flows == plan.model().flows,
            flows == flow_plan_models(plan.flows@),
            asked == selector.model(),
            at <= plan.flows@.len(),
            tests_asked(flows, entry, text@, asked, 0, Seq::empty()) == tests_asked(
                flows,
                entry,
                text@,
                asked,
                at as int,
                ids@,
            ),
        decreases plan.flows@.len() - at,
    {
        proof {
            assert(flows[at as int] == plan.flows@[at as int].model());
        }
        let flow: &MettlePlan = &plan.flows[at];
        if flow.kind == DeclarationKind::Test && flow.span.source == entry && matches_selector(
            plan,
            at,
            text,
            selector,
        ) {
            ids.push(at);
        }
        at += 1;
    }
    if ids.len() == 0 {
        return match selector {
            MettleSelector::Name(name) => Err(wrapped("test `", name.as_str(), "` was not found")),
            MettleSelector::Line(line) => Err(with_number("no test starts on line ", *line)),
            MettleSelector::Id(id) => Err(with_number("no test has compiler ID ", *id)),
        };
    }
    if ids.len() > 1 {
        return match selector {
            MettleSelector::Name(name) => Err(
                wrapped("more than one test is named `", name.as_str(), "`"),
            ),
            MettleSelector::Line(line) => Err(
                with_number("more than one test starts on line ", *line),
            ),
            MettleSelector::Id(id) => Err(with_number("more than one test has compiler ID ", *id)),
        };
    }
    Ok(ids)
}

/// How many flows a file declares, from `from` on.
pub open spec fn flows_in(flows: Seq<MettlePlanModel>, entry: usize, from: int) -> nat
    decreases flows.len() - from,
{
    if from < 0 || from >= flows.len() {
        0
    } else {
        flows_in(flows, entry, from + 1) + (if flows[from].kind == DeclarationKind::Flow
            && flows[from].span.source == entry {
            1nat
        } else {
            0
        })
    }
}

/// How many flows a file declares.
pub fn count_flows(plan: &ExecutionPlan, entry: usize) -> (count: usize)
    ensures
        count == flows_in(plan.model().flows, entry, 0),
{
    let ghost flows = plan.model().flows;
    let mut count: usize = 0;
    let mut at: usize = 0;
    while at < plan.flows.len()
        invariant
            flows == plan.model().flows,
            flows == flow_plan_models(plan.flows@),
            at <= plan.flows@.len(),
            count <= at,
            flows_in(flows, entry, 0) == count + flows_in(flows, entry, at as int),
        decreases plan.flows@.len() - at,
    {
        proof {
            assert(flows[at as int] == plan.flows@[at as int].model());
        }
        if plan.flows[at].kind == DeclarationKind::Flow && plan.flows[at].span.source == entry {
            count += 1;
        }
        at += 1;
    }
    count
}

proof fn lemma_batch(flows: Seq<MettlePlanModel>, entry: usize, from: int, done: Seq<usize>)
    requires
        0 <= from <= flows.len(),
    ensures
        batch_of(flows, DeclarationKind::Flow, entry, from, done).len() <= done.len() + flows_in(
            flows,
            entry,
            from,
        ),
    decreases flows.len() - from,
{
    if from < flows.len() {
        if in_batch(flows[from], DeclarationKind::Flow, entry) {
            lemma_batch(flows, entry, from + 1, done.push(from as usize));
        } else {
            lemma_batch(flows, entry, from + 1, done);
        }
    }
}

/// A batch of flows holds no more than the file declares.
pub proof fn law_batch_of_flows(plan: ExecutionPlanModel, entry: usize)
    ensures
        batch_of(plan.flows, DeclarationKind::Flow, entry, 0, Seq::empty()).len() <= flows_in(
            plan.flows,
            entry,
            0,
        ),
{
    lemma_batch(plan.flows, entry, 0, Seq::empty());
}

// ---------------------------------------------------------------------------
// Lists

/// One line of a list: where a declaration is, its name and its parameters.
pub open spec fn listed_line(flow: MettlePlanModel, documents: Seq<DocumentModel>) -> Seq<char> {
    let document = documents[flow.span.source as int];
    let line = location(document.text, flow.span.start as int).0;
    "  "@ + document.path + ":"@ + padded(decimal(line as nat), 4) + "  "@ + flow.display_name + (
    if flow.kind == DeclarationKind::Test || flow.parameters.len() == 0 {
        ""@
    } else {
        " ("@ + joined(flow.parameters, ", "@, 0) + ")"@
    }) + "\n"@
}

/// The lines for the declarations of a kind, from `from` on.
pub open spec fn listed_from(
    flows: Seq<MettlePlanModel>,
    kind: DeclarationKind,
    documents: Seq<DocumentModel>,
    from: int,
    done: Seq<char>,
) -> Seq<char>
    decreases flows.len() - from,
{
    if from < 0 || from >= flows.len() {
        done
    } else if flows[from].kind == kind {
        listed_from(flows, kind, documents, from + 1, done + listed_line(flows[from], documents))
    } else {
        listed_from(flows, kind, documents, from + 1, done)
    }
}

/// The list of the flows or of the tests of a plan. Without tests there is no
/// list of them.
pub open spec fn list_of(
    flows: Seq<MettlePlanModel>,
    kind: DeclarationKind,
    documents: Seq<DocumentModel>,
) -> Seq<char> {
    if kind == DeclarationKind::Test {
        if declared(flows, kind, 0, Seq::empty()).len() == 0 {
            ""@
        } else {
            listed_from(flows, kind, documents, 0, "Available tests:\n"@)
        }
    } else {
        listed_from(flows, kind, documents, 0, "Available flows:\n"@)
    }
}

pub open spec fn sources_known(flows: Seq<MettlePlanModel>, count: nat) -> bool {
    forall|i: int| 0 <= i < flows.len() ==> (#[trigger] flows[i]).span.source < count
}

fn list_line(flow: &MettlePlan, documents: &Vec<SourceDocument>) -> (line: String)
    requires
        flow.span.source < documents@.len(),
    ensures
        line@ == listed_line(flow.model(), document_models(documents@)),
{
    let document: &SourceDocument = &documents[flow.span.source];
    proof {
        assert(document_models(documents@)[flow.span.source as int] == document.model());
    }
    let place: (usize, usize) = source_location(document.text.as_str(), flow.span.start);
    let mut line: String = "  ".to_owned();
    line.append(document.path.as_str());
    line.append(":");
    line.append(pad(decimal_text(place.0 as u128).as_str(), 4).as_str());
    line.append("  ");
    line.append(flow.display_name.as_str());
    if flow.kind == DeclarationKind::Test || flow.parameters.len() == 0 {
        line.append("");
    } else {
        let parameters: String = join(&flow.parameters, ", ");
        line.append(wrapped(" (", parameters.as_str(), ")").as_str());
    }
    line.append("\n");
    line
}

/// Lists the flows or the tests of a plan.
pub fn list_declarations(
    plan: &ExecutionPlan,
    kind: DeclarationKind,
    documents: &Vec<SourceDocument>,
) -> (text: String)
    requires
        sources_known(plan.model().flows, documents@.len()),
    ensures
        text@ == list_of(plan.model().flows, kind, document_models(documents@)),
{
    let ghost flows = plan.model().flows;
    let ghost models = document_models(documents@);
    let mut text: String = if kind == DeclarationKind::Test {
        let ids: Vec<usize> = declarations(plan, kind);
        if ids.len() == 0 {
            return "".to_owned();
        }
        "Available tests:\n".to_owned()
    } else {
        "Available flows:\n".to_owned()
    };
    let ghost first = text@;
    let mut at: usize = 0;
    while at < plan.flows.len()
        invariant
            flows == plan.model().flows,
            flows == flow_plan_models(plan.flows@),
            models == document_models(documents@),
            sources_known(flows, documents@.len()),
            at <= plan.flows@.len(),
            listed_from(flows, kind, models, 0, first) == listed_from(
                flows,
                kind,
                models,
                at as int,
                text@,
            ),
        decreases plan.flows@.len() - at,
    {
        proof {
            assert(flows[at as int] == plan.flows@[at as int].model());
        }
        if plan.flows[at].kind == kind {
            text.append(list_line(&plan.flows[at], documents).as_str());
        }
        at += 1;
    }
    text
}

} // verus!
