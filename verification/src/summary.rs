//! Reports on whole executions and workloads.

use vstd::prelude::*;
use vstd::string::*;

use crate::binary64::Binary64;
use crate::duration::Duration;
use crate::figures::{
    display_duration, display_shortly, displayed, displayed_shortly, fixed, fixed_text, quotient,
    quotient_of, seconds, seconds_of, whole, whole_number,
};
use crate::metrics::{clipped_count, WorkloadKind, WorkloadPhase, WorkloadSnapshot};
use crate::capability::{OperationReport, OperationReportModel};
use crate::report::{
    event_models, operations_pieces, piece_models, placed, place_value, said, say,
    render_operations, style, styled, EventModel, OperationEvent, Piece, PieceModel,
};
use crate::text::{
    decimal, decimal_text, grouped, grouped_text, no_text, pad, padded, signed_decimal,
    signed_decimal_text, views, wrapped,
};
use crate::value::{equals, lookup, EntryModel, Object, Value, ValueModel};

verus! {

// ---------------------------------------------------------------------------
// Progress of workloads

pub open spec fn phase_name(phase: WorkloadPhase) -> Seq<char> {
    match phase {
        WorkloadPhase::Starting => "STARTING"@,
        WorkloadPhase::Running => "RUNNING"@,
        WorkloadPhase::Draining => "DRAINING"@,
        WorkloadPhase::Completed => "COMPLETED"@,
    }
}

/// How long a workload starts iterations.
pub open spec fn window_of(kind: WorkloadKind) -> Duration {
    match kind {
        WorkloadKind::Rate { duration, .. } => duration,
        WorkloadKind::Concurrency { duration, .. } => duration,
    }
}

pub open spec fn description_of(kind: WorkloadKind) -> Seq<char> {
    match kind {
        WorkloadKind::Rate { target, period, .. } => "rate "@ + grouped(target as nat) + "/"@
            + displayed_shortly(period),
        WorkloadKind::Concurrency { limit, .. } => "concurrency "@ + grouped(limit as nat),
    }
}

pub open spec fn kind_limit(kind: WorkloadKind) -> usize {
    match kind {
        WorkloadKind::Rate { limit, .. } => limit,
        WorkloadKind::Concurrency { limit, .. } => limit,
    }
}

pub open spec fn lesser(first: Duration, second: Duration) -> Duration {
    if first.nanos <= second.nanos {
        first
    } else {
        second
    }
}

/// How many iterations have started in a second.
pub open spec fn achieved(snapshot: WorkloadSnapshot) -> Binary64 {
    let window = lesser(snapshot.elapsed, window_of(snapshot.kind));
    if window.nanos == 0 {
        Binary64 { bits: 0 }
    } else {
        quotient(whole(clipped_count(snapshot.started as nat) as int), seconds(window))
    }
}

/// The lines that show how far a workload has come.
pub open spec fn progress_lines(snapshot: WorkloadSnapshot) -> Seq<Seq<char>> {
    let window = window_of(snapshot.kind);
    let rate = (if snapshot.kind is Rate {
        "achieved "@
    } else {
        "throughput "@
    }) + fixed(achieved(snapshot), 1) + "/s"@;
    seq![
        "Mettle · "@ + description_of(snapshot.kind) + " for "@ + displayed_shortly(window),
        padded(phase_name(snapshot.phase), 9) + " "@ + displayed_shortly(
            lesser(snapshot.elapsed, window),
        ) + " / "@ + displayed_shortly(window) + "   active "@ + grouped(snapshot.active as nat)
            + " / "@ + grouped(kind_limit(snapshot.kind) as nat) + "   "@ + rate,
        "started "@ + grouped(snapshot.started as nat) + "   completed "@ + grouped(
            snapshot.completed as nat,
        ) + "   ok "@ + grouped(snapshot.success as nat) + "   failed "@ + grouped(
            snapshot.failed as nat,
        ) + "   dropped "@ + grouped(snapshot.dropped as nat),
        "latency p50 "@ + displayed_shortly(snapshot.latency_p50) + "   p95 "@ + displayed_shortly(
            snapshot.latency_p95,
        ) + "   p99 "@ + displayed_shortly(snapshot.latency_p99),
    ]
}

fn push_grouped(text: &mut String, count: usize)
    ensures
        final(text)@ == old(text)@ + grouped(count as nat),
{
    text.append(grouped_text(count as u128).as_str());
}

fn push_shortly(text: &mut String, duration: Duration)
    ensures
        final(text)@ == old(text)@ + displayed_shortly(duration),
{
    text.append(display_shortly(duration).as_str());
}

fn achieved_rate(snapshot: &WorkloadSnapshot, window: Duration) -> (rate: Binary64)
    requires
        window == lesser(snapshot.elapsed, window_of(snapshot.kind)),
    ensures
        rate == achieved(*snapshot),
{
    if window.nanos == 0 {
        return Binary64 { bits: 0 };
    }
    let count: i64 = if snapshot.started as u128 > u32::MAX as u128 {
        u32::MAX as i64
    } else {
        snapshot.started as i64
    };
    quotient_of(whole_number(count), seconds_of(window))
}

fn describe(kind: WorkloadKind) -> (text: String)
    ensures
        text@ == description_of(kind),
{
    match kind {
        WorkloadKind::Rate { target, period, .. } => {
            let mut text: String = "rate ".to_owned();
            push_grouped(&mut text, target);
            text.append("/");
            push_shortly(&mut text, period);
            text
        },
        WorkloadKind::Concurrency { limit, .. } => {
            let mut text: String = "concurrency ".to_owned();
            push_grouped(&mut text, limit);
            text
        },
    }
}

fn status_line(snapshot: &WorkloadSnapshot) -> (text: String)
    ensures
        text@ == progress_lines(*snapshot)[1],
{
    let phase: &str = match snapshot.phase {
        WorkloadPhase::Starting => "STARTING",
        WorkloadPhase::Running => "RUNNING",
        WorkloadPhase::Draining => "DRAINING",
        WorkloadPhase::Completed => "COMPLETED",
    };
    let (window, limit, label): (Duration, usize, &str) = match snapshot.kind {
        WorkloadKind::Rate { duration, limit, .. } => (duration, limit, "achieved "),
        WorkloadKind::Concurrency { duration, limit } => (duration, limit, "throughput "),
    };
    let elapsed: Duration = if snapshot.elapsed.nanos <= window.nanos {
        snapshot.elapsed
    } else {
        window
    };
    let mut rate: String = label.to_owned();
    rate.append(fixed_text(achieved_rate(snapshot, elapsed), 1).as_str());
    rate.append("/s");
    let mut text: String = pad(phase, 9);
    text.append(" ");
    push_shortly(&mut text, elapsed);
    text.append(" / ");
    push_shortly(&mut text, window);
    text.append("   active ");
    push_grouped(&mut text, snapshot.active);
    text.append(" / ");
    push_grouped(&mut text, limit);
    text.append("   ");
    text.append(rate.as_str());
    text
}

/// The lines that show how far a workload has come.
pub fn workload_progress_lines(snapshot: &WorkloadSnapshot) -> (lines: Vec<String>)
    ensures
        views(lines@) == progress_lines(*snapshot),
{
    let window: Duration = match snapshot.kind {
        WorkloadKind::Rate { duration, .. } => duration,
        WorkloadKind::Concurrency { duration, .. } => duration,
    };
    let mut first: String = "Mettle · ".to_owned();
    first.append(describe(snapshot.kind).as_str());
    first.append(" for ");
    push_shortly(&mut first, window);
    let mut counts: String = "started ".to_owned();
    push_grouped(&mut counts, snapshot.started);
    counts.append("   completed ");
    push_grouped(&mut counts, snapshot.completed);
    counts.append("   ok ");
    push_grouped(&mut counts, snapshot.success);
    counts.append("   failed ");
    push_grouped(&mut counts, snapshot.failed);
    counts.append("   dropped ");
    push_grouped(&mut counts, snapshot.dropped);
    let mut latency: String = "latency p50 ".to_owned();
    push_shortly(&mut latency, snapshot.latency_p50);
    latency.append("   p95 ");
    push_shortly(&mut latency, snapshot.latency_p95);
    latency.append("   p99 ");
    push_shortly(&mut latency, snapshot.latency_p99);
    let mut lines: Vec<String> = Vec::new();
    lines.push(first);
    lines.push(status_line(snapshot));
    lines.push(counts);
    lines.push(latency);
    proof {
        assert(views(lines@) =~= progress_lines(*snapshot));
    }
    lines
}

// ---------------------------------------------------------------------------
// Results of workloads

fn push_count(text: &mut String, count: usize)
    ensures
        final(text)@ == old(text)@ + decimal(count as nat),
{
    text.append(decimal_text(count as u128).as_str());
}

fn push_duration(text: &mut String, duration: Duration)
    ensures
        final(text)@ == old(text)@ + displayed(duration),
{
    text.append(display_duration(duration).as_str());
}

pub open spec fn integer_at(entries: Seq<EntryModel>, name: Seq<char>) -> Option<i64> {
    match lookup(entries, name) {
        Some(ValueModel::Integer(value)) => Some(value),
        _ => None,
    }
}

pub open spec fn duration_at(entries: Seq<EntryModel>, name: Seq<char>) -> Option<Duration> {
    match lookup(entries, name) {
        Some(ValueModel::Duration(value)) => Some(value),
        _ => None,
    }
}

pub open spec fn small_number(value: i64) -> Option<Binary64> {
    if i32::MIN <= value <= i32::MAX {
        Some(whole(value as int))
    } else {
        None
    }
}

pub open spec fn number_at(entries: Seq<EntryModel>, name: Seq<char>) -> Option<Binary64> {
    match lookup(entries, name) {
        Some(ValueModel::Integer(value)) => small_number(value),
        Some(ValueModel::Float(value)) => Some(value),
        _ => None,
    }
}

/// What was asked of a workload. There is no line where parts are missing.
#[verifier::opaque]
pub open spec fn policy_line(entries: Seq<EntryModel>) -> Option<Seq<char>> {
    match lookup(entries, "rate"@) {
        Some(ValueModel::Object(rate)) => match (
            integer_at(rate, "target"@),
            duration_at(rate, "period"@),
            number_at(rate, "actual"@),
        ) {
            (Some(target), Some(period), Some(actual)) => match small_number(target) {
                Some(count) => Some(
                    "Rate "@ + fixed(quotient(actual, seconds(period)), 1) + "/s · target "@ + fixed(
                        quotient(count, seconds(period)),
                        1,
                    ) + "/s\n"@,
                ),
                None => None,
            },
            _ => None,
        },
        _ => match lookup(entries, "concurrency"@) {
            Some(ValueModel::Object(concurrency)) => match integer_at(concurrency, "limit"@) {
                Some(limit) => Some("Concurrency "@ + signed_decimal(limit as int) + "\n"@),
                None => None,
            },
            _ => Some(""@),
        },
    }
}

/// The counts of a workload: count, started, success, failed and dropped.
#[verifier::opaque]
pub open spec fn counts_line(entries: Seq<EntryModel>) -> Option<Seq<char>> {
    match (
        integer_at(entries, "count"@),
        integer_at(entries, "started"@),
        integer_at(entries, "success"@),
        integer_at(entries, "failed"@),
        integer_at(entries, "dropped"@),
    ) {
        (Some(completed), Some(started), Some(success), Some(failed), Some(dropped)) => Some(
            "\n"@ + signed_decimal(started as int) + " started · "@ + signed_decimal(success as int)
                + " successful · "@ + signed_decimal(failed as int) + " failed · "@
                + signed_decimal(dropped as int) + " dropped · "@ + signed_decimal(
                completed as int,
            ) + " completed\n"@,
        ),
        _ => None,
    }
}

#[verifier::opaque]
pub open spec fn latency_line(entries: Seq<EntryModel>) -> Option<Seq<char>> {
    match lookup(entries, "latency"@) {
        Some(ValueModel::Object(latency)) => match (
            duration_at(latency, "p50"@),
            duration_at(latency, "p95"@),
            duration_at(latency, "p99"@),
            duration_at(latency, "max"@),
        ) {
            (Some(p50), Some(p95), Some(p99), Some(max)) => Some(
                "Latency p50 "@ + displayed(p50) + " · p95 "@ + displayed(p95) + " · p99 "@
                    + displayed(p99) + " · max "@ + displayed(max),
            ),
            _ => None,
        },
        _ => None,
    }
}

pub open spec fn status_text(saturated: bool, elapsed: Duration, color: bool) -> Seq<char> {
    styled(
        if saturated {
            "COMPLETED · SATURATED"@
        } else {
            "COMPLETED"@
        },
        if saturated {
            "33;1"@
        } else {
            "36;1"@
        },
        color,
    ) + "  "@ + displayed(elapsed) + "\n"@
}

/// What is shown of a value that is the result of a workload.
pub open spec fn workload_text(value: ValueModel, color: bool) -> Option<Seq<char>> {
    match value {
        ValueModel::Object(entries) => match (
            counts_line(entries),
            duration_at(entries, "duration"@),
            latency_line(entries),
            policy_line(entries),
        ) {
            (Some(counts), Some(elapsed), Some(latency), Some(policy)) => Some(
                status_text(
                    lookup(entries, "saturated"@) == Some(ValueModel::Boolean(true)),
                    elapsed,
                    color,
                ) + counts + policy + latency,
            ),
            _ => None,
        },
        _ => None,
    }
}

fn find_integer(object: &Object, name: &str) -> (value: Option<i64>)
    ensures
        value == integer_at(object.model(), name@),
{
    match object.get(name) {
        Some(Value::Integer(value)) => Some(*value),
        _ => None,
    }
}

fn find_flag(object: &Object, name: &str) -> (yes: bool)
    ensures
        yes == (lookup(object.model(), name@) == Some(ValueModel::Boolean(true))),
{
    match object.get(name) {
        Some(Value::Boolean(yes)) => *yes,
        _ => false,
    }
}

fn find_duration(object: &Object, name: &str) -> (value: Option<Duration>)
    ensures
        value == duration_at(object.model(), name@),
{
    match object.get(name) {
        Some(Value::Duration(value)) => Some(*value),
        _ => None,
    }
}

fn integer_number(value: i64) -> (number: Option<Binary64>)
    ensures
        number == small_number(value),
{
    if i32::MIN as i64 <= value && value <= i32::MAX as i64 {
        Some(whole_number(value))
    } else {
        None
    }
}

fn find_number(object: &Object, name: &str) -> (number: Option<Binary64>)
    ensures
        number == number_at(object.model(), name@),
{
    match object.get(name) {
        Some(Value::Integer(value)) => integer_number(*value),
        Some(Value::Float(value)) => Some(*value),
        _ => None,
    }
}

pub open spec fn optional_line(line: Option<String>) -> Option<Seq<char>> {
    match line {
        Some(line) => Some(line@),
        None => None,
    }
}

fn make_policy_line(object: &Object) -> (line: Option<String>)
    ensures
        optional_line(line) == policy_line(object.model()),
{
    proof {
        reveal(policy_line);
    }
    if let Some(Value::Object(rate)) = object.get("rate") {
        if let (Some(target), Some(period), Some(actual)) = (
            find_integer(rate, "target"),
            find_duration(rate, "period"),
            find_number(rate, "actual"),
        ) {
            if let Some(count) = integer_number(target) {
                let length: Binary64 = seconds_of(period);
                let mut line: String = "Rate ".to_owned();
                line.append(fixed_text(quotient_of(actual, length), 1).as_str());
                line.append("/s · target ");
                line.append(fixed_text(quotient_of(count, length), 1).as_str());
                line.append("/s\n");
                return Some(line);
            }
        }
        return None;
    }
    if let Some(Value::Object(concurrency)) = object.get("concurrency") {
        return match find_integer(concurrency, "limit") {
            Some(limit) => {
                let mut line: String = "Concurrency ".to_owned();
                line.append(signed_decimal_text(limit).as_str());
                line.append("\n");
                Some(line)
            },
            None => None,
        };
    }
    Some("".to_owned())
}

fn make_counts_line(object: &Object) -> (line: Option<String>)
    ensures
        optional_line(line) == counts_line(object.model()),
{
    proof {
        reveal(counts_line);
    }
    if let (Some(completed), Some(started), Some(success), Some(failed), Some(dropped)) = (
        find_integer(object, "count"),
        find_integer(object, "started"),
        find_integer(object, "success"),
        find_integer(object, "failed"),
        find_integer(object, "dropped"),
    ) {
        let mut line: String = "\n".to_owned();
        line.append(signed_decimal_text(started).as_str());
        line.append(" started · ");
        line.append(signed_decimal_text(success).as_str());
        line.append(" successful · ");
        line.append(signed_decimal_text(failed).as_str());
        line.append(" failed · ");
        line.append(signed_decimal_text(dropped).as_str());
        line.append(" dropped · ");
        line.append(signed_decimal_text(completed).as_str());
        line.append(" completed\n");
        return Some(line);
    }
    None
}

fn make_latency_line(object: &Object) -> (line: Option<String>)
    ensures
        optional_line(line) == latency_line(object.model()),
{
    proof {
        reveal(latency_line);
    }
    if let Some(Value::Object(latency)) = object.get("latency") {
        if let (Some(p50), Some(p95), Some(p99), Some(max)) = (
            find_duration(latency, "p50"),
            find_duration(latency, "p95"),
            find_duration(latency, "p99"),
            find_duration(latency, "max"),
        ) {
            let mut line: String = "Latency p50 ".to_owned();
            push_duration(&mut line, p50);
            line.append(" · p95 ");
            push_duration(&mut line, p95);
            line.append(" · p99 ");
            push_duration(&mut line, p99);
            line.append(" · max ");
            push_duration(&mut line, max);
            return Some(line);
        }
    }
    None
}

fn make_status(saturated: bool, elapsed: Duration, color: bool) -> (text: String)
    ensures
        text@ == status_text(saturated, elapsed, color),
{
    let mut text: String = if saturated {
        style("COMPLETED · SATURATED", "33;1", color)
    } else {
        style("COMPLETED", "36;1", color)
    };
    text.append("  ");
    push_duration(&mut text, elapsed);
    text.append("\n");
    text
}

/// What is shown of a value that is the result of a workload.
pub fn workload_result(value: &Value, color: bool) -> (text: Option<String>)
    ensures
        optional_line(text) == workload_text(value.model(), color),
{
    if let Value::Object(object) = value {
        if let (Some(counts), Some(elapsed), Some(latency), Some(policy)) = (
            make_counts_line(object),
            find_duration(object, "duration"),
            make_latency_line(object),
            make_policy_line(object),
        ) {
            let saturated: bool = find_flag(object, "saturated");
            let mut text: String = make_status(saturated, elapsed, color);
            text.append(counts.as_str());
            text.append(policy.as_str());
            text.append(latency.as_str());
            return Some(text);
        }
    }
    None
}

// ---------------------------------------------------------------------------
// Executions

/// An execution that came to a value.
pub struct ExecutionReport<'a> {
    pub flow: &'a str,
    pub duration: Duration,
    pub result: &'a Value,
    pub operations: &'a Vec<OperationEvent>,
}

/// Whether an operation gave the result, or its report shows it.
pub open spec fn gave(event: EventModel, result: ValueModel) -> bool {
    ||| event.result matches Ok(value) && equals(value, result)
    ||| event.report matches Some(report) && report.payload matches Some(payload) && equals(
        payload,
        result,
    )
}

/// The report of the first operation from `from` on that gave the result.
pub open spec fn final_report(events: Seq<EventModel>, result: ValueModel, from: int) -> Option<
    OperationReportModel,
>
    decreases events.len() - from,
{
    if from < 0 || from >= events.len() {
        None
    } else if gave(events[from], result) && events[from].report is Some {
        events[from].report
    } else {
        final_report(events, result, from + 1)
    }
}

/// The value that is shown as the result, under its label.
pub open spec fn shown_result(events: Seq<EventModel>, result: ValueModel, verbose: bool) -> Option<
    (Seq<char>, ValueModel),
> {
    match final_report(events, result, 0) {
        None => Some(
            (
                if verbose {
                    "Full result"@
                } else {
                    "Result"@
                },
                result,
            ),
        ),
        Some(report) => match report.payload {
            Some(payload) => if verbose {
                None
            } else {
                Some(("Response"@, payload))
            },
            None => None,
        },
    }
}

pub open spec fn ending(text: Seq<char>, duration: Duration, color: bool) -> Seq<char> {
    styled("✓"@, "32"@, color) + text + displayed(duration)
}

/// The report on an execution.
pub open spec fn human_pieces(
    flow: Seq<char>,
    duration: Duration,
    result: ValueModel,
    events: Seq<EventModel>,
    verbose: bool,
    color: bool,
) -> Seq<PieceModel> {
    match workload_text(result, color) {
        Some(summary) => said(Seq::empty(), styled(flow, "1"@, color) + "\n\n"@ + summary),
        None => {
            let head = said(Seq::empty(), styled(flow, "1"@, color) + "\n\n"@);
            let body = operations_pieces(head, events, 0, color, verbose);
            let all = match shown_result(events, result, verbose) {
                Some((label, value)) => said(
                    placed(
                        said(body, "  "@ + styled(label, "2"@, color) + "\n"@),
                        value,
                        4,
                        verbose,
                    ),
                    "\n"@,
                ),
                None => body,
            };
            said(all, ending(" Completed in "@, duration, color))
        },
    }
}

fn find_report<'a>(events: &'a Vec<OperationEvent>, result: &Value) -> (report: Option<
    &'a OperationReport,
>)
    ensures
        (match report {
            Some(report) => Some(report.model()),
            None => None,
        }) == final_report(event_models(events@), result.model(), 0),
{
    let ghost models = event_models(events@);
    let mut at: usize = 0;
    while at < events.len()
        invariant
            models == event_models(events@),
            at <= events@.len(),
            final_report(models, result.model(), 0) == final_report(
                models,
                result.model(),
                at as int,
            ),
        decreases events@.len() - at,
    {
        proof {
            assert(models[at as int] == events@[at as int].model());
        }
        if let Some(report) = &events[at].report {
            let by_result: bool = match &events[at].result {
                Ok(value) => value.equal(result),
                Err(_) => false,
            };
            let by_payload: bool = match &report.payload {
                Some(payload) => payload.equal(result),
                None => false,
            };
            if by_result || by_payload {
                return Some(report);
            }
        }
        at += 1;
    }
    None
}

fn make_ending(text: &str, duration: Duration, color: bool) -> (ending: String)
    ensures
        ending@ == self::ending(text@, duration, color),
{
    let mut ending: String = style("✓", "32", color);
    ending.append(text);
    push_duration(&mut ending, duration);
    ending
}

impl<'a> ExecutionReport<'a> {
    /// The report on a flow, in pieces.
    pub fn human(&self, verbose: bool, color: bool) -> (pieces: Vec<Piece>)
        ensures
            piece_models(pieces@) == human_pieces(
                self.flow@,
                self.duration,
                self.result.model(),
                event_models(self.operations@),
                verbose,
                color,
            ),
    {
        let mut pieces: Vec<Piece> = Vec::new();
        proof {
            assert(piece_models(pieces@) =~= Seq::empty());
        }
        let mut head: String = style(self.flow, "1", color);
        head.append("\n\n");
        if let Some(summary) = workload_result(self.result, color) {
            head.append(summary.as_str());
            say(&mut pieces, head);
            return pieces;
        }
        say(&mut pieces, head);
        render_operations(&mut pieces, self.operations, color, verbose);
        let found: Option<(&str, &Value)> = match find_report(self.operations, self.result) {
            None => Some(
                (
                    if verbose {
                        "Full result"
                    } else {
                        "Result"
                    },
                    self.result,
                ),
            ),
            Some(report) => match &report.payload {
                Some(payload) => if verbose {
                    None
                } else {
                    Some(("Response", payload))
                },
                None => None,
            },
        };
        if let Some((label, value)) = found {
            say(&mut pieces, wrapped("  ", style(label, "2", color).as_str(), "\n"));
            place_value(&mut pieces, value, 4, verbose);
            say(&mut pieces, "\n".to_owned());
        }
        say(&mut pieces, make_ending(" Completed in ", self.duration, color));
        pieces
    }

    /// The report on a test, in pieces.
    pub fn test_human(&self, verbose: bool, color: bool) -> (pieces: Vec<Piece>)
        ensures
            piece_models(pieces@) == said(
                operations_pieces(
                    said(Seq::empty(), "\n"@),
                    event_models(self.operations@),
                    0,
                    color,
                    verbose,
                ),
                ending(" Passed in "@, self.duration, color),
            ),
    {
        let mut pieces: Vec<Piece> = Vec::new();
        proof {
            assert(piece_models(pieces@) =~= Seq::empty());
        }
        say(&mut pieces, "\n".to_owned());
        render_operations(&mut pieces, self.operations, color, verbose);
        say(&mut pieces, make_ending(" Passed in ", self.duration, color));
        pieces
    }

    /// One line on a flow.
    pub fn quiet(&self, color: bool) -> (line: String)
        ensures
            line@ == styled("✓"@, "32"@, color) + " "@ + self.flow@ + " · "@ + displayed(
                self.duration,
            ),
    {
        let mut line: String = style("✓", "32", color);
        line.append(" ");
        line.append(self.flow);
        line.append(" · ");
        push_duration(&mut line, self.duration);
        line
    }

    /// One line on a test.
    pub fn test_quiet(&self, color: bool) -> (line: String)
        ensures
            line@ == styled("✓"@, "32"@, color) + " "@ + self.flow@ + " · "@ + displayed(
                self.duration,
            ),
    {
        self.quiet(color)
    }
}

/// The report on an execution that failed.
pub open spec fn failure_pieces(
    flow: Seq<char>,
    events: Seq<EventModel>,
    color: bool,
    test: bool,
) -> Seq<PieceModel> {
    let head = if test {
        Seq::empty()
    } else {
        said(Seq::empty(), styled(flow, "1"@, color) + "\n\n"@)
    };
    said(
        operations_pieces(head, events, 0, color, false),
        styled("✗"@, "31"@, color) + (if test {
            " Test failed"@
        } else {
            " Flow failed"@
        }),
    )
}

/// The report on an execution that failed, in pieces.
pub fn failure_summary(flow: &str, operations: &Vec<OperationEvent>, color: bool, test: bool)
    -> (pieces: Vec<Piece>)
    ensures
        piece_models(pieces@) == failure_pieces(flow@, event_models(operations@), color, test),
{
    let mut pieces: Vec<Piece> = Vec::new();
    proof {
        assert(piece_models(pieces@) =~= Seq::empty());
    }
    if !test {
        let mut head: String = style(flow, "1", color);
        head.append("\n\n");
        say(&mut pieces, head);
    }
    render_operations(&mut pieces, operations, color, false);
    let mut end: String = style("✗", "31", color);
    end.append(
        if test {
            " Test failed"
        } else {
            " Flow failed"
        },
    );
    say(&mut pieces, end);
    pieces
}

// ---------------------------------------------------------------------------
// Counts of flows and tests

pub open spec fn plural(count: nat, noun: Seq<char>) -> Seq<char> {
    decimal(count) + " "@ + noun + (if count == 1 {
        ""@
    } else {
        "s"@
    })
}

/// What is said of a file that was checked.
pub open spec fn checked_text(path: Seq<char>, flows: nat, tests: nat) -> Seq<char> {
    "Checked "@ + path + " ("@ + plural(flows, "flow"@) + (if tests == 0 {
        ""@
    } else {
        ", "@ + plural(tests, "test"@)
    }) + ")."@
}

fn make_plural(count: usize, noun: &str) -> (text: String)
    ensures
        text@ == plural(count as nat, noun@),
{
    let mut text: String = no_text();
    push_count(&mut text, count);
    proof {
        assert(text@ =~= decimal(count as nat));
    }
    text.append(" ");
    text.append(noun);
    text.append(
        if count == 1 {
            ""
        } else {
            "s"
        },
    );
    text
}

/// What is said of a file that was checked.
pub fn check_summary(path: &str, flows: usize, tests: usize) -> (text: String)
    ensures
        text@ == checked_text(path@, flows as nat, tests as nat),
{
    let mut text: String = "Checked ".to_owned();
    text.append(path);
    text.append(" (");
    text.append(make_plural(flows, "flow").as_str());
    if tests == 0 {
        text.append("");
    } else {
        let mut more: String = ", ".to_owned();
        more.append(make_plural(tests, "test").as_str());
        text.append(more.as_str());
    }
    text.append(").");
    text
}

pub open spec fn double_rule() -> Seq<char> {
    "========================================================================"@
}

pub open spec fn single_rule() -> Seq<char> {
    "------------------------------------------------------------------------"@
}

/// What is said when all tests of a file have run.
pub open spec fn tests_text(passed: nat, failed: nat, duration: Duration) -> Seq<char> {
    "\n"@ + double_rule() + "\nTest summary\n  Passed: "@ + decimal(passed) + "   Failed: "@
        + decimal(failed) + "\n  Duration: "@ + displayed(duration) + "\n"@ + double_rule()
}

/// Says how the tests of a file went.
pub fn test_summary(passed: usize, failed: usize, duration: Duration) -> (text: String)
    ensures
        text@ == tests_text(passed as nat, failed as nat, duration),
{
    let rule: &str = "========================================================================";
    let mut text: String = "\n".to_owned();
    text.append(rule);
    text.append("\nTest summary\n  Passed: ");
    push_count(&mut text, passed);
    text.append("   Failed: ");
    push_count(&mut text, failed);
    text.append("\n  Duration: ");
    push_duration(&mut text, duration);
    text.append("\n");
    text.append(rule);
    text
}

/// What is said when all flows of a file have run. Without a duration there was
/// none to run.
pub open spec fn batch_text(passed: nat, failed: nat, skipped: nat, duration: Option<Duration>)
    -> Seq<char> {
    let counts = "  Passed: "@ + decimal(passed) + "   Failed: "@ + decimal(failed)
        + "   Skipped: "@ + decimal(skipped);
    "\n"@ + double_rule() + "\nBatch summary\n"@ + (match duration {
        Some(duration) => counts + "\n  Duration: "@ + displayed(duration),
        None => "  No zero-argument flows to run.\n"@ + counts,
    }) + "\n"@ + double_rule()
}

/// Says how the flows of a file went.
pub fn batch_summary(passed: usize, failed: usize, skipped: usize, duration: Option<Duration>)
    -> (text: String)
    ensures
        text@ == batch_text(passed as nat, failed as nat, skipped as nat, duration),
{
    let rule: &str = "========================================================================";
    let mut counts: String = "  Passed: ".to_owned();
    push_count(&mut counts, passed);
    counts.append("   Failed: ");
    push_count(&mut counts, failed);
    counts.append("   Skipped: ");
    push_count(&mut counts, skipped);
    let middle: String = match duration {
        Some(duration) => {
            let mut middle: String = counts;
            middle.append("\n  Duration: ");
            push_duration(&mut middle, duration);
            middle
        },
        None => {
            let mut middle: String = "  No zero-argument flows to run.\n".to_owned();
            middle.append(counts.as_str());
            middle
        },
    };
    let mut text: String = "\n".to_owned();
    text.append(rule);
    text.append("\nBatch summary\n");
    text.append(middle.as_str());
    text.append("\n");
    text.append(rule);
    text
}

/// What stands above the report on one of several declarations.
pub open spec fn separator_text(noun: Seq<char>, index: nat, total: nat, name: Seq<char>) -> Seq<
    char,
> {
    "\n"@ + single_rule() + "\n"@ + noun + " "@ + decimal(index) + "/"@ + decimal(total) + " · "@
        + name + "\n"@ + single_rule()
}

/// What stands above the report on one of several declarations.
pub fn separator(noun: &str, index: usize, total: usize, name: &str) -> (text: String)
    ensures
        text@ == separator_text(noun@, index as nat, total as nat, name@),
{
    let rule: &str = "------------------------------------------------------------------------";
    let mut text: String = "\n".to_owned();
    text.append(rule);
    text.append("\n");
    text.append(noun);
    text.append(" ");
    push_count(&mut text, index);
    text.append("/");
    push_count(&mut text, total);
    text.append(" · ");
    text.append(name);
    text.append("\n");
    text.append(rule);
    text
}

} // verus!
