//! What the commands print, in each of their output modes.

use vstd::prelude::*;
use vstd::string::*;

use crate::documents::{line, settled, write_line};
use crate::duration::Duration;
use crate::execution::RuntimeErrorModel;
use crate::executor::RuntimeError;
use crate::figures::displayed;
use crate::json::Json;
use crate::options::OutputMode;
use crate::plan::{optional_text, MettlePlan};
use crate::records::{
    batch_end, batch_end_record, batch_start, batch_start_record, error_record, failure,
    failure_record, flow_result, flow_result_record, test_result, test_result_record, tests_end,
    tests_end_record, tests_start, tests_start_record,
};
use crate::report::{
    assembled, event_models, operations_pieces, print, raw, raw_value, said, styled,
    written_documents, EventModel, OperationEvent, Piece, PieceModel, Rendered, RenderedModel,
};
use crate::sources::{diagnostic, document_of, render_diagnostic, DocumentModel, LoadedProject};
use crate::summary::{
    batch_summary, batch_text, ending, failure_pieces, failure_summary, human_pieces, test_summary,
    tests_text, ExecutionReport,
};
use crate::syntax::DeclarationKind;
use crate::text::{join, joined, views};
use crate::value::ValueModel;

verus! {

/// Whether people are meant to read along.
pub open spec fn for_people(mode: OutputMode) -> bool {
    mode is Human || mode is Verbose
}

/// Whether to head each run, and to show how workloads get on.
pub fn is_for_people(mode: OutputMode) -> (result: bool)
    ensures
        result == for_people(mode),
{
    match mode {
        OutputMode::Human => true,
        OutputMode::Verbose => true,
        _ => false,
    }
}

/// A report as it is printed.
pub open spec fn printed(pieces: Seq<PieceModel>) -> Seq<char> {
    let documents = written_documents(pieces, 0, Seq::empty());
    assembled(pieces, documents, 0, 0, Seq::empty())
}

/// What is printed of a flow that came to a value, or of a test that passed.
pub open spec fn success_text(
    flow: Seq<char>,
    duration: Duration,
    result: ValueModel,
    events: Seq<EventModel>,
    mode: OutputMode,
    test: bool,
    batch: bool,
    color: bool,
) -> Seq<char> {
    match mode {
        OutputMode::Quiet => styled("✓"@, "32"@, color) + " "@ + flow + " · "@ + displayed(
            duration,
        ),
        OutputMode::Raw => match raw(result) {
            RenderedModel::Text(text) => text,
            RenderedModel::Document(json) => line(settled(json)),
        },
        OutputMode::Json => if test {
            line(settled(test_result(flow, duration)))
        } else {
            line(settled(flow_result(flow, duration, result, batch)))
        },
        _ => if test {
            printed(
                said(
                    operations_pieces(
                        said(Seq::empty(), "\n"@),
                        events,
                        0,
                        color,
                        mode is Verbose,
                    ),
                    ending(" Passed in "@, duration, color),
                ),
            )
        } else {
            printed(human_pieces(flow, duration, result, events, mode is Verbose, color))
        },
    }
}

/// Tells of a flow that came to a value, or of a test that passed.
pub fn success_output(
    report: &ExecutionReport<'_>,
    mode: OutputMode,
    test: bool,
    batch: bool,
    color: bool,
) -> (text: String)
    ensures
        text@ == success_text(
            report.flow@,
            report.duration,
            report.result.model(),
            event_models(report.operations@),
            mode,
            test,
            batch,
            color,
        ),
{
    match mode {
        OutputMode::Human => if test {
            print(&report.test_human(false, color))
        } else {
            print(&report.human(false, color))
        },
        OutputMode::Verbose => if test {
            print(&report.test_human(true, color))
        } else {
            print(&report.human(true, color))
        },
        OutputMode::Quiet => if test {
            report.test_quiet(color)
        } else {
            report.quiet(color)
        },
        OutputMode::Raw => match raw_value(report.result) {
            Rendered::Text(text) => text,
            Rendered::Document(json) => write_line(&json),
        },
        OutputMode::Json => if test {
            write_line(&test_result_record(report.flow, report.duration))
        } else if batch {
            write_line(&flow_result_record(report.flow, report.duration, report.result, true))
        } else {
            report.json()
        },
    }
}

/// The line that comes before the runs of a batch of flows.
pub fn flows_start(mode: OutputMode, eligible: usize, skipped: usize) -> (text: Option<String>)
    ensures
        optional_text(text) == (if mode is Json {
            Some(line(settled(batch_start(eligible as nat, skipped as nat))))
        } else {
            None
        }),
{
    match mode {
        OutputMode::Json => Some(write_line(&batch_start_record(eligible, skipped))),
        _ => None,
    }
}

/// What comes behind the runs of a batch of flows. Nothing has lasted where
/// there was none.
pub fn flows_end(
    mode: OutputMode,
    passed: usize,
    failed: usize,
    skipped: usize,
    duration: Option<Duration>,
) -> (text: Option<String>)
    requires
        passed + failed <= usize::MAX,
    ensures
        optional_text(text) == (match mode {
            OutputMode::Json => Some(
                line(
                    settled(
                        batch_end(
                            passed as nat,
                            failed as nat,
                            skipped as nat,
                            match duration {
                                Some(duration) => duration,
                                None => Duration { nanos: 0 },
                            },
                        ),
                    ),
                ),
            ),
            OutputMode::Raw => None,
            _ => Some(batch_text(passed as nat, failed as nat, skipped as nat, duration)),
        }),
{
    match mode {
        OutputMode::Json => {
            let lasted: Duration = match duration {
                Some(duration) => duration,
                None => Duration { nanos: 0 },
            };
            Some(write_line(&batch_end_record(passed, failed, skipped, lasted)))
        },
        OutputMode::Raw => None,
        _ => Some(batch_summary(passed, failed, skipped, duration)),
    }
}

/// The line that comes before the runs of tests.
pub fn tests_start_line(mode: OutputMode, eligible: usize) -> (text: Option<String>)
    ensures
        optional_text(text) == (if mode is Json {
            Some(line(settled(tests_start(eligible as nat))))
        } else {
            None
        }),
{
    match mode {
        OutputMode::Json => Some(write_line(&tests_start_record(eligible))),
        _ => None,
    }
}

/// What comes behind the runs of tests.
pub fn tests_end_text(mode: OutputMode, passed: usize, failed: usize, duration: Duration) -> (text:
    String)
    requires
        passed + failed <= usize::MAX,
    ensures
        text@ == (if mode is Json {
            line(settled(tests_end(passed as nat, failed as nat, duration)))
        } else {
            tests_text(passed as nat, failed as nat, duration)
        }),
{
    match mode {
        OutputMode::Json => write_line(&tests_end_record(passed, failed, duration)),
        _ => test_summary(passed, failed, duration),
    }
}

/// The line that shows how flows have called each other, where any did.
pub fn stack_line(stack: &Vec<String>) -> (text: Option<String>)
    ensures
        optional_text(text) == (if stack@.len() == 0 {
            None
        } else {
            Some("flow stack: "@ + joined(views(stack@), " -> "@, 0))
        }),
{
    if stack.len() == 0 {
        None
    } else {
        let mut text: String = "flow stack: ".to_owned();
        let whole: String = join(stack, " -> ");
        text.append(whole.as_str());
        Some(text)
    }
}

/// What is told of a run, and where: as output, or as an error.
pub enum Told {
    Output(String),
    Error(String),
}

pub enum ToldModel {
    Output(Seq<char>),
    Error(Seq<char>),
}

impl Told {
    pub open spec fn model(self) -> ToldModel {
        match self {
            Told::Output(text) => ToldModel::Output(text@),
            Told::Error(text) => ToldModel::Error(text@),
        }
    }
}

/// What is told of a flow or a test that failed: a record, or the operations,
/// the place in the source, and how flows have called each other.
pub open spec fn failure_told(
    document: DocumentModel,
    flow: Seq<char>,
    kind: DeclarationKind,
    events: Seq<EventModel>,
    mode: OutputMode,
    batch: bool,
    duration: Duration,
    error: RuntimeErrorModel,
    color: bool,
) -> ToldModel {
    if mode is Json {
        let start = error.span.start as int;
        let what = error_record(error.message, document, start, error.flow_stack);
        ToldModel::Output(line(settled(failure(flow, kind, batch, duration, what))))
    } else {
        let pieces = failure_pieces(flow, events, color, kind == DeclarationKind::Test);
        let place = diagnostic(document.path, document.text, error.message, error.span);
        let text = printed(pieces) + "\n\n"@ + place;
        ToldModel::Error(
            if error.flow_stack.len() == 0 {
                text
            } else {
                text + "\n"@ + ("flow stack: "@ + joined(error.flow_stack, " -> "@, 0))
            },
        )
    }
}

/// Tells of a flow or a test that failed.
pub fn failure_output(
    project: &LoadedProject,
    flow: &MettlePlan,
    operations: &Vec<OperationEvent>,
    mode: OutputMode,
    batch: bool,
    duration: Duration,
    error: &RuntimeError,
    color: bool,
) -> (told: Told)
    requires
        project.entry_source < project.sources@.len(),
    ensures
        told.model() == failure_told(
            document_of(*project, error.span),
            flow.display_name@,
            flow.kind,
            event_models(operations@),
            mode,
            batch,
            duration,
            error.model(),
            color,
        ),
{
    match mode {
        OutputMode::Json => {
            let index: usize = if error.span.source < project.sources.len() {
                error.span.source
            } else {
                project.entry_source
            };
            let record: Json = failure_record(
                flow,
                batch,
                duration,
                error.message.as_str(),
                &project.sources[index],
                error.span.start,
                &error.flow_stack,
            );
            Told::Output(write_line(&record))
        },
        _ => {
            let test: bool = flow.kind == DeclarationKind::Test;
            let pieces: Vec<Piece> = failure_summary(
                flow.display_name.as_str(),
                operations,
                color,
                test,
            );
            let mut text: String = print(&pieces);
            text.append("\n\n");
            let place: String = render_diagnostic(project, error.message.as_str(), error.span);
            text.append(place.as_str());
            if let Some(stack) = stack_line(&error.flow_stack) {
                text.append("\n");
                text.append(stack.as_str());
            }
            Told::Error(text)
        },
    }
}

} // verus!
