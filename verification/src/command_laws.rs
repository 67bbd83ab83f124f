//! What a command does with its arguments, and which flows and tests it runs.

use vstd::prelude::*;

use crate::arguments::{
    argument_named, argument_value, repeated_name, resolved, resolved_arguments,
};
use crate::batch::{Batch, Next, RunOutcome, Status};
use crate::duration_laws::lemma_decimal;
use crate::lexer::numeral;
use crate::options::{
    command_of, count_of, digits_value, options_from, run_options, with_option, CommandModel, OptionsModel,
    OutputMode,
};
use crate::plan::{ExecutionPlanModel, MettlePlanModel};
use crate::positions::location;
use crate::selection::{
    batch_of, capability_fault, declared, flow_named, flows_on, in_batch, is_asked, selected, tests_asked, tests_of,
    SelectorModel,
};
use crate::syntax::DeclarationKind;
use crate::text::{decimal, is_digit, lemma_position_of, position_of};
use crate::value::ValueModel;

verus! {

// ---------------------------------------------------------------------------
// Options

proof fn lemma_option_names()
    ensures
        "--all"@.len() == 5 && "--all"@[2] == 'a' && "--all"@[3] == 'l',
        "--arg"@.len() == 5 && "--arg"@[2] == 'a' && "--arg"@[3] == 'r',
        "--raw"@.len() == 5 && "--raw"@[2] == 'r',
        "--line"@.len() == 6,
        "--quiet"@.len() == 7,
        "--pretty"@.len() == 8 && "--pretty"@[2] == 'p',
        "--output"@.len() == 8 && "--output"@[2] == 'o',
        "--profile"@.len() == 9 && "--profile"@[2] == 'p',
        "--flow-id"@.len() == 9 && "--flow-id"@[2] == 'f',
        "--verbose"@.len() == 9 && "--verbose"@[2] == 'v',
        "--no-color"@.len() == 10,
        "--no-progress"@.len() == 13,
{
    reveal_strlit("--all");
    reveal_strlit("--arg");
    reveal_strlit("--raw");
    reveal_strlit("--line");
    reveal_strlit("--quiet");
    reveal_strlit("--pretty");
    reveal_strlit("--output");
    reveal_strlit("--profile");
    reveal_strlit("--flow-id");
    reveal_strlit("--verbose");
    reveal_strlit("--no-color");
    reveal_strlit("--no-progress");
}

/// Each option changes what it names and nothing else.
pub proof fn law_options_set_what_they_name(
    options: OptionsModel,
    argument: Seq<char>,
    value: Option<Seq<char>>,
)
    ensures
        with_option(options, argument, value) matches Ok(next) ==> {
            &&& argument == "--all"@ <==> next.all && !options.all
            &&& options.all ==> next.all
            &&& argument == "--no-progress"@ || !options.progress <==> !next.progress
            &&& argument == "--no-color"@ || !options.color <==> !next.color
            &&& next.profile == (if argument == "--profile"@ {
                value
            } else {
                options.profile
            })
            &&& argument != "--arg"@ ==> next.arguments == options.arguments
            &&& argument == "--verbose"@ || argument == "--pretty"@ ==> next.output
                == OutputMode::Verbose
            &&& argument == "--raw"@ ==> next.output == OutputMode::Raw
            &&& argument == "--quiet"@ ==> next.output == OutputMode::Quiet
            &&& argument == "--output"@ ==> next.output == OutputMode::Json && value == Some(
                "json"@,
            )
            &&& next.output != options.output ==> options.output == OutputMode::Human && (argument
                == "--verbose"@ || argument == "--pretty"@ || argument == "--raw"@ || argument
                == "--quiet"@ || argument == "--output"@)
            &&& argument == "--line"@ ==> (next.selector matches Some(SelectorModel::Line(line)))
            &&& argument == "--flow-id"@ ==> (next.selector matches Some(SelectorModel::Id(id)))
            &&& argument.len() == 0 || argument[0] != '-' ==> next.selector == Some(
                SelectorModel::Name(argument),
            )
            &&& next.selector != options.selector ==> options.selector is None && !options.all
        },
{
    lemma_option_names();
    reveal_strlit("--all");
    reveal_strlit("--line");
    reveal_strlit("--arg");
    reveal_strlit("--profile");
    reveal_strlit("--flow-id");
    reveal_strlit("--verbose");
    reveal_strlit("--pretty");
    reveal_strlit("--raw");
    reveal_strlit("--quiet");
    reveal_strlit("--output");
    reveal_strlit("--no-progress");
    reveal_strlit("--no-color");
    assert("--all"@[0] == '-' && "--line"@[0] == '-' && "--arg"@[0] == '-');
    assert("--profile"@[0] == '-' && "--flow-id"@[0] == '-' && "--verbose"@[0] == '-');
    assert("--pretty"@[0] == '-' && "--raw"@[0] == '-' && "--quiet"@[0] == '-');
    assert("--output"@[0] == '-' && "--no-progress"@[0] == '-' && "--no-color"@[0] == '-');
}

pub(crate) proof fn lemma_count(value: usize)
    ensures
        count_of(decimal(value as nat)) == Some(value),
{
    let text = decimal(value as nat);
    lemma_decimal(value as nat);
    lemma_same_value(text);
    assert(is_digit(text[0]));
}

proof fn lemma_same_value(text: Seq<char>)
    requires
        forall|i: int| 0 <= i < text.len() ==> is_digit(#[trigger] text[i]),
    ensures
        digits_value(text) == numeral(text, 10),
    decreases text.len(),
{
    if text.len() > 0 {
        let front = text.drop_last();
        assert forall|i: int| 0 <= i < front.len() implies is_digit(#[trigger] front[i]) by {
            assert(front[i] == text[i]);
        }
        lemma_same_value(front);
        assert(is_digit(text[text.len() - 1]));
    }
}

/// A line or an identity that is written in digits is the number that they mean.
pub proof fn law_numbers_select(options: OptionsModel, number: usize)
    requires
        !options.all,
        options.selector is None,
    ensures
        with_option(options, "--flow-id"@, Some(decimal(number as nat))) matches Ok(next)
            && next.selector == Some(SelectorModel::Id(number)),
        number > 0 ==> (with_option(options, "--line"@, Some(decimal(number as nat))) matches Ok(
            next,
        ) && next.selector == Some(SelectorModel::Line(number))),
        number == 0 ==> with_option(options, "--line"@, Some(decimal(number as nat))) is Err,
{
    lemma_option_names();
    lemma_count(number);
}

/// A flow's argument is what stands on both sides of the first `=`, behind those
/// that were given before.
pub proof fn law_arguments_are_split(options: OptionsModel, name: Seq<char>, text: Seq<char>)
    requires
        name.len() > 0,
        forall|i: int| 0 <= i < name.len() ==> name[i] != '=',
    ensures
        with_option(options, "--arg"@, Some(name + seq!['='] + text)) matches Ok(next)
            && next.arguments == options.arguments.push((name, text)),
{
    lemma_option_names();
    let whole = name + seq!['='] + text;
    lemma_position_of(whole, '=', 0);
    let at = position_of(whole, '=', 0);
    assert(whole[name.len() as int] == '=');
    if at < name.len() {
        assert(whole[at] == name[at]);
    }
    assert(at == name.len());
    assert(whole.subrange(0, at) =~= name);
    assert(whole.subrange(at + 1, whole.len() as int) =~= text);
}

proof fn lemma_options(
    arguments: Seq<Option<Seq<char>>>,
    from: int,
    options: OptionsModel,
)
    requires
        0 <= from,
        !(options.all && options.selector is Some),
    ensures
        options_from(arguments, from, options) matches Ok(end) ==> {
            &&& !(end.all && end.selector is Some)
            &&& options.all ==> end.all
            &&& options.selector is Some ==> end.selector == options.selector
            &&& options.profile is Some ==> end.profile == options.profile
            &&& options.output != OutputMode::Human ==> end.output == options.output
            &&& !options.progress ==> !end.progress
            &&& !options.color ==> !end.color
            &&& options.arguments.len() <= end.arguments.len()
            &&& end.arguments.take(options.arguments.len() as int) == options.arguments
        },
    decreases arguments.len() - from,
{
    if from < arguments.len() {
        if let Some(argument) = arguments[from] {
            let value = if from + 1 < arguments.len() {
                arguments[from + 1]
            } else {
                None
            };
            if let Ok(next) = with_option(options, argument, value) {
                law_options_set_what_they_name(options, argument, value);
                lemma_option_names();
                let after = if crate::options::takes_value(argument) && from + 1
                    < arguments.len() {
                    from + 2
                } else {
                    from + 1
                };
                lemma_options(arguments, after, next);
                if let Ok(end) = options_from(arguments, from, options) {
                    assert(next.arguments.take(options.arguments.len() as int)
                        =~= options.arguments);
                    assert(end.arguments.take(options.arguments.len() as int)
                        =~= end.arguments.take(next.arguments.len() as int).take(
                        options.arguments.len() as int,
                    ));
                }
            }
        }
    } else {
        assert(options.arguments.take(options.arguments.len() as int) =~= options.arguments);
    }
}

/// Options never take back what an earlier one has set, and a flow is not
/// selected where all of them are asked for.
pub proof fn law_options_stay(
    arguments: Seq<Option<Seq<char>>>,
    from: int,
    options: OptionsModel,
)
    requires
        0 <= from,
        !(options.all && options.selector is Some),
    ensures
        options_from(arguments, from, options) matches Ok(end) ==> {
            &&& !(end.all && end.selector is Some)
            &&& options.all ==> end.all
            &&& options.selector is Some ==> end.selector == options.selector
            &&& options.profile is Some ==> end.profile == options.profile
            &&& options.output != OutputMode::Human ==> end.output == options.output
            &&& !options.progress ==> !end.progress
            &&& !options.color ==> !end.color
            &&& options.arguments.len() <= end.arguments.len()
            &&& end.arguments.take(options.arguments.len() as int) == options.arguments
        },
{
    lemma_options(arguments, from, options);
}

/// The first argument names the command, and a test takes no arguments, no
/// identity and no raw output.
pub proof fn law_commands_are_named(arguments: Seq<Option<Seq<char>>>)
    ensures
        command_of(arguments) matches Ok(command) ==> arguments.len() > 0 && {
            &&& command is Run <==> arguments[0] == Some("run"@)
            &&& command is Test <==> arguments[0] == Some("test"@)
            &&& command is Check <==> arguments[0] == Some("check"@)
            &&& command is List <==> arguments[0] == Some("list"@)
            &&& command is Lsp <==> arguments[0] == Some("lsp"@)
            &&& command is Help <==> arguments[0] == Some("--help"@) || arguments[0] == Some(
                "-h"@,
            )
            &&& command is Version <==> arguments[0] == Some("--version"@) || arguments[0] == Some(
                "-V"@,
            )
            &&& command matches CommandModel::List { json } ==> json == (arguments.len() == 3)
                && (json ==> arguments[2] == Some("--json"@))
            &&& command matches CommandModel::Test(options) ==> !options.all
                && options.arguments.len() == 0 && options.output != OutputMode::Raw && !(
            options.selector matches Some(SelectorModel::Id(_)))
        },
{
    reveal_strlit("run");
    reveal_strlit("test");
    reveal_strlit("check");
    reveal_strlit("list");
    reveal_strlit("lsp");
    reveal_strlit("--help");
    reveal_strlit("-h");
    reveal_strlit("--version");
    reveal_strlit("-V");
    assert("run"@.len() == 3 && "lsp"@.len() == 3 && "test"@.len() == 4 && "list"@.len() == 4);
    assert("check"@.len() == 5 && "--help"@.len() == 6 && "-h"@.len() == 2);
    assert("--version"@.len() == 9 && "-V"@.len() == 2);
    assert("run"@[0] == 'r' && "lsp"@[0] == 'l' && "test"@[0] == 't' && "list"@[0] == 'l');
    assert("-h"@[1] == 'h' && "-V"@[1] == 'V');
}

// ---------------------------------------------------------------------------
// The arguments of a flow

proof fn lemma_argument_named(
    arguments: Seq<(Seq<char>, Seq<char>)>,
    name: Seq<char>,
    from: int,
)
    requires
        0 <= from <= arguments.len(),
    ensures
        match argument_named(arguments, name, from) {
            Some(at) => from <= at < arguments.len() && arguments[at].0 == name,
            None => forall|i: int| from <= i < arguments.len() ==> (#[trigger] arguments[i]).0
                != name,
        },
    decreases arguments.len() - from,
{
    if from < arguments.len() && arguments[from].0 != name {
        lemma_argument_named(arguments, name, from + 1);
    }
}

/// Whether a text is read as a value.
#[verifier::opaque]
pub open spec fn means(name: Seq<char>, text: Seq<char>, value: ValueModel) -> bool {
    argument_value(name, text) == Ok::<ValueModel, Seq<char>>(value)
}

/// Whether a value was given under a name.
pub open spec fn given(
    arguments: Seq<(Seq<char>, Seq<char>)>,
    name: Seq<char>,
    value: ValueModel,
) -> bool {
    exists|i: int|
        0 <= i < arguments.len() && (#[trigger] arguments[i]).0 == name && means(
            name,
            arguments[i].1,
            value,
        )
}

/// Whether a name is among those of the parameters from a place on.
pub open spec fn is_parameter(parameters: Seq<Seq<char>>, name: Seq<char>, from: int) -> bool {
    exists|k: int| from <= k < parameters.len() && #[trigger] parameters[k] == name
}

proof fn lemma_given_before(
    left: Seq<(Seq<char>, Seq<char>)>,
    at: int,
    name: Seq<char>,
    value: ValueModel,
)
    requires
        0 <= at < left.len(),
        given(left.remove(at), name, value),
    ensures
        given(left, name, value),
{
    let rest = left.remove(at);
    let i = choose|i: int|
        0 <= i < rest.len() && (#[trigger] rest[i]).0 == name && means(name, rest[i].1, value);
    let k = if i < at {
        i
    } else {
        i + 1
    };
    assert(left[k] == rest[i]);
}

#[verifier::rlimit(40)]
proof fn lemma_resolved(
    flow: Seq<char>,
    parameters: Seq<Seq<char>>,
    from: int,
    left: Seq<(Seq<char>, Seq<char>)>,
    done: Seq<ValueModel>,
)
    requires
        0 <= from <= parameters.len(),
        done.len() == from,
    ensures
        resolved(flow, parameters, from, left, done) matches Ok(values) ==> {
            &&& values.len() == parameters.len()
            &&& left.len() == parameters.len() - from
            &&& forall|i: int| 0 <= i < from ==> #[trigger] values[i] == done[i]
            &&& forall|i: int|
                from <= i < parameters.len() ==> given(
                    left,
                    parameters[i],
                    #[trigger] values[i],
                )
            &&& forall|i: int|
                0 <= i < left.len() ==> is_parameter(
                    parameters,
                    (#[trigger] left[i]).0,
                    from,
                )
        },
    decreases parameters.len() - from,
{
    if from < parameters.len() {
        lemma_argument_named(left, parameters[from], 0);
        if let Some(at) = argument_named(left, parameters[from], 0) {
            if let Ok(value) = argument_value(parameters[from], left[at].1) {
                let rest = left.remove(at);
                let more = done.push(value);
                assert(means(parameters[from], left[at].1, value)) by {
                    reveal(means);
                }
                lemma_resolved(flow, parameters, from + 1, rest, more);
                if let Ok(values) = resolved(flow, parameters, from, left, done) {
                    assert forall|i: int| 0 <= i < from implies #[trigger] values[i]
                        == done[i] by {
                        assert(values[i] == more[i]);
                    }
                    assert(values[from] == more[from]);
                    assert forall|i: int| from <= i < parameters.len() implies given(
                        left,
                        parameters[i],
                        #[trigger] values[i],
                    ) by {
                        if i == from {
                            assert(left[at].0 == parameters[from]);
                        } else {
                            lemma_given_before(left, at, parameters[i], values[i]);
                        }
                    }
                    assert forall|i: int| 0 <= i < left.len() implies is_parameter(
                        parameters,
                        (#[trigger] left[i]).0,
                        from,
                    ) by {
                        if i == at {
                            assert(parameters[from] == left[i].0);
                        } else {
                            let k = if i < at {
                                i
                            } else {
                                i - 1
                            };
                            assert(rest[k] == left[i]);
                            assert(is_parameter(parameters, rest[k].0, from + 1));
                        }
                    }
                }
            }
        }
    }
}

proof fn lemma_repeated(arguments: Seq<(Seq<char>, Seq<char>)>, from: int)
    requires
        0 <= from <= arguments.len(),
        forall|i: int, j: int|
            0 <= i < j < from ==> (#[trigger] arguments[i]).0 != (#[trigger] arguments[j]).0,
    ensures
        repeated_name(arguments, from) is None <==> forall|i: int, j: int|
            0 <= i < j < arguments.len() ==> (#[trigger] arguments[i]).0 != (
            #[trigger] arguments[j]).0,
    decreases arguments.len() - from,
{
    if from < arguments.len() {
        let before = arguments.take(from);
        lemma_argument_named(before, arguments[from].0, 0);
        if let Some(at) = argument_named(before, arguments[from].0, 0) {
            assert(before[at] == arguments[at]);
        } else {
            assert forall|i: int, j: int| 0 <= i < j < from + 1 implies (
            #[trigger] arguments[i]).0 != (#[trigger] arguments[j]).0 by {
                if j == from {
                    assert(before[i] == arguments[i]);
                }
            }
            lemma_repeated(arguments, from + 1);
        }
    }
}

/// Where a flow can be given its arguments, each parameter has the value that
/// was given under its name, each that was given is a parameter, and none was
/// given twice.
pub proof fn law_parameters_have_their_values(
    flow: Seq<char>,
    parameters: Seq<Seq<char>>,
    supplied: Seq<(Seq<char>, Seq<char>)>,
)
    ensures
        resolved_arguments(flow, parameters, supplied) matches Ok(values) ==> {
            &&& values.len() == parameters.len() == supplied.len()
            &&& forall|i: int|
                0 <= i < parameters.len() ==> given(
                    supplied,
                    parameters[i],
                    #[trigger] values[i],
                )
            &&& forall|i: int|
                0 <= i < supplied.len() ==> is_parameter(
                    parameters,
                    (#[trigger] supplied[i]).0,
                    0,
                )
            &&& forall|i: int, j: int|
                0 <= i < j < supplied.len() ==> (#[trigger] supplied[i]).0 != (
                #[trigger] supplied[j]).0
        },
{
    lemma_resolved(flow, parameters, 0, supplied, Seq::empty());
    lemma_repeated(supplied, 0);
}

// ---------------------------------------------------------------------------
// Selection

/// Whether a row of positions holds exactly those below a bound that are
/// chosen, in their order.
pub open spec fn exactly(ids: Seq<usize>, count: int, chosen: spec_fn(int) -> bool) -> bool {
    &&& forall|i: int, j: int|
        0 <= i < j < ids.len() ==> (#[trigger] ids[i]) < (#[trigger] ids[j])
    &&& forall|i: int|
        0 <= i < ids.len() ==> (#[trigger] ids[i]) < count && chosen(ids[i] as int)
    &&& forall|k: int|
        0 <= k < count && #[trigger] chosen(k) ==> exists|i: int|
            0 <= i < ids.len() && #[trigger] ids[i] == k
}

proof fn lemma_next(ids: Seq<usize>, at: int, chosen: spec_fn(int) -> bool)
    requires
        exactly(ids, at, chosen),
        0 <= at <= usize::MAX,
    ensures
        chosen(at) ==> exactly(ids.push(at as usize), at + 1, chosen),
        !chosen(at) ==> exactly(ids, at + 1, chosen),
{
    if chosen(at) {
        let more = ids.push(at as usize);
        assert forall|k: int| 0 <= k < at + 1 && #[trigger] chosen(k) implies exists|i: int|
            0 <= i < more.len() && #[trigger] more[i] == k by {
            if k == at {
                assert(more[ids.len() as int] == k);
            } else {
                let i = choose|i: int| 0 <= i < ids.len() && #[trigger] ids[i] == k;
                assert(more[i] == k);
            }
        }
        assert forall|i: int, j: int| 0 <= i < j < more.len() implies (#[trigger] more[i]) < (
        #[trigger] more[j]) by {
            assert(more[i] == ids[i]);
        }
    }
}

pub open spec fn of_kind(flows: Seq<MettlePlanModel>, kind: DeclarationKind) -> spec_fn(int) -> bool {
    |k: int| flows[k].kind == kind
}

proof fn lemma_declared(
    flows: Seq<MettlePlanModel>,
    kind: DeclarationKind,
    from: int,
    done: Seq<usize>,
)
    requires
        flows.len() <= usize::MAX,
        0 <= from <= flows.len(),
        exactly(done, from, of_kind(flows, kind)),
    ensures
        exactly(declared(flows, kind, from, done), flows.len() as int, of_kind(flows, kind)),
    decreases flows.len() - from,
{
    if from < flows.len() {
        let chosen = of_kind(flows, kind);
        lemma_next(done, from, chosen);
        if flows[from].kind == kind {
            assert(chosen(from));
            lemma_declared(flows, kind, from + 1, done.push(from as usize));
        } else {
            assert(!chosen(from));
            lemma_declared(flows, kind, from + 1, done);
        }
    }
}

/// The declarations of a kind are all of that kind and no others, in their order.
pub proof fn law_declarations_are_of_their_kind(
    flows: Seq<MettlePlanModel>,
    kind: DeclarationKind,
)
    requires
        flows.len() <= usize::MAX,
    ensures
        exactly(
            declared(flows, kind, 0, Seq::empty()),
            flows.len() as int,
            |k: int| flows[k].kind == kind,
        ),
{
    lemma_declared(flows, kind, 0, Seq::empty());
}

/// What a batch takes of a file: tests, or the flows that need no argument.
pub open spec fn taken(
    flows: Seq<MettlePlanModel>,
    kind: DeclarationKind,
    entry: usize,
) -> spec_fn(int) -> bool {
    |k: int|
        flows[k].kind == kind && flows[k].span.source == entry && (flows[k].parameters.len() == 0
            || kind == DeclarationKind::Test)
}

proof fn lemma_batch(
    flows: Seq<MettlePlanModel>,
    kind: DeclarationKind,
    entry: usize,
    from: int,
    done: Seq<usize>,
)
    requires
        flows.len() <= usize::MAX,
        0 <= from <= flows.len(),
        exactly(done, from, taken(flows, kind, entry)),
    ensures
        exactly(
            batch_of(flows, kind, entry, from, done),
            flows.len() as int,
            taken(flows, kind, entry),
        ),
    decreases flows.len() - from,
{
    if from < flows.len() {
        let chosen = taken(flows, kind, entry);
        lemma_next(done, from, chosen);
        if in_batch(flows[from], kind, entry) {
            assert(chosen(from));
            lemma_batch(flows, kind, entry, from + 1, done.push(from as usize));
        } else {
            assert(!chosen(from));
            lemma_batch(flows, kind, entry, from + 1, done);
        }
    }
}

/// A batch runs the tests of a file, or those of its flows that take no
/// parameters, in their order.
pub proof fn law_batches_run_what_needs_no_arguments(
    flows: Seq<MettlePlanModel>,
    kind: DeclarationKind,
    entry: usize,
)
    requires
        flows.len() <= usize::MAX,
    ensures
        exactly(
            batch_of(flows, kind, entry, 0, Seq::empty()),
            flows.len() as int,
            |k: int|
                flows[k].kind == kind && flows[k].span.source == entry && (
                flows[k].parameters.len() == 0 || kind == DeclarationKind::Test),
        ),
{
    lemma_batch(flows, kind, entry, 0, Seq::empty());
}

/// The flows of a file that start on a line.
pub open spec fn on_line(
    flows: Seq<MettlePlanModel>,
    entry: usize,
    text: Seq<char>,
    line: usize,
) -> spec_fn(int) -> bool {
    |k: int|
        flows[k].kind == DeclarationKind::Flow && flows[k].span.source == entry && location(
            text,
            flows[k].span.start as int,
        ).0 == line
}

proof fn lemma_on_line(
    flows: Seq<MettlePlanModel>,
    entry: usize,
    text: Seq<char>,
    line: usize,
    from: int,
    done: Seq<usize>,
)
    requires
        flows.len() <= usize::MAX,
        0 <= from <= flows.len(),
        exactly(done, from, on_line(flows, entry, text, line)),
    ensures
        exactly(
            flows_on(flows, entry, text, line, from, done),
            flows.len() as int,
            on_line(flows, entry, text, line),
        ),
    decreases flows.len() - from,
{
    if from < flows.len() {
        let chosen = on_line(flows, entry, text, line);
        lemma_next(done, from, chosen);
        if flows[from].span.source == entry && flows[from].kind == DeclarationKind::Flow
            && location(text, flows[from].span.start as int).0 == line {
            assert(chosen(from));
            lemma_on_line(flows, entry, text, line, from + 1, done.push(from as usize));
        } else {
            assert(!chosen(from));
            lemma_on_line(flows, entry, text, line, from + 1, done);
        }
    }
}

proof fn lemma_flow_named(flows: Seq<MettlePlanModel>, name: Seq<char>, from: int)
    requires
        0 <= from <= flows.len(),
    ensures
        match flow_named(flows, name, from) {
            Some(at) => from <= at < flows.len() && flows[at].kind == DeclarationKind::Flow
                && flows[at].name == Some(name) && forall|i: int|
                from <= i < at ==> (#[trigger] flows[i]).kind != DeclarationKind::Flow
                    || flows[i].name != Some(name),
            None => forall|i: int|
                from <= i < flows.len() ==> (#[trigger] flows[i]).kind != DeclarationKind::Flow
                    || flows[i].name != Some(name),
        },
    decreases flows.len() - from,
{
    if from < flows.len() && !(flows[from].kind == DeclarationKind::Flow && flows[from].name
        == Some(name)) {
        lemma_flow_named(flows, name, from + 1);
    }
}

/// Whether a flow is the only one that is chosen.
pub open spec fn only(count: int, id: int, chosen: spec_fn(int) -> bool) -> bool {
    0 <= id < count && chosen(id) && forall|k: int|
        0 <= k < count && #[trigger] chosen(k) ==> k == id
}

proof fn lemma_single(ids: Seq<usize>, count: int, chosen: spec_fn(int) -> bool)
    requires
        exactly(ids, count, chosen),
    ensures
        ids.len() == 1 ==> only(count, ids[0] as int, chosen),
        forall|id: int| #[trigger] only(count, id, chosen) ==> ids.len() == 1 && ids[0] == id,
        ids.len() == 0 <==> forall|k: int| 0 <= k < count ==> !#[trigger] chosen(k),
{
    if ids.len() == 1 {
        let id = ids[0] as int;
        assert(chosen(id));
        assert forall|k: int| 0 <= k < count && #[trigger] chosen(k) implies k == id by {
            let i = choose|i: int| 0 <= i < ids.len() && #[trigger] ids[i] == k;
        }
    }
    assert forall|id: int| #[trigger] only(count, id, chosen) implies ids.len() == 1 && ids[0]
        == id by {
        let i = choose|i: int| 0 <= i < ids.len() && #[trigger] ids[i] == id;
        if ids.len() > 1 {
            assert(chosen(ids[0] as int) && chosen(ids[1] as int));
            assert(ids[0] < ids[1]);
        }
    }
    if ids.len() > 0 {
        assert(chosen(ids[0] as int));
    }
}

/// A flow is selected by its name, by the line on which it alone starts, or by
/// its position. Without a selector the default is taken, or the only flow.
pub proof fn law_flows_are_selected(
    plan: ExecutionPlanModel,
    entry: usize,
    text: Seq<char>,
    selector: Option<SelectorModel>,
    id: int,
)
    requires
        plan.flows.len() <= usize::MAX,
    ensures
        ({
            let flows = plan.flows;
            let found = selected(plan, entry, text, selector) == Ok::<int, (Seq<char>, bool)>(id);
            match selector {
                Some(SelectorModel::Name(name)) => {
                    &&& found <==> 0 <= id < flows.len() && flows[id].kind == DeclarationKind::Flow
                        && flows[id].name == Some(name) && forall|i: int|
                        0 <= i < id ==> (#[trigger] flows[i]).kind != DeclarationKind::Flow
                            || flows[i].name != Some(name)
                },
                Some(SelectorModel::Line(line)) => found <==> only(
                    flows.len() as int,
                    id,
                    on_line(flows, entry, text, line),
                ),
                Some(SelectorModel::Id(asked)) => found <==> id == asked && id < flows.len()
                    && flows[id].kind == DeclarationKind::Flow,
                None => found <==> plan.default_flow == Some(id) || plan.default_flow is None
                    && only(flows.len() as int, id, of_kind(flows, DeclarationKind::Flow)),
            }
        }),
{
    let flows = plan.flows;
    match selector {
        Some(SelectorModel::Name(name)) => {
            lemma_flow_named(flows, name, 0);
            if let Some(at) = flow_named(flows, name, 0) {
                if 0 <= id < flows.len() && id < at {
                    assert(flows[id].kind != DeclarationKind::Flow || flows[id].name != Some(name));
                }
                if id > at {
                    assert(flows[at].kind == DeclarationKind::Flow);
                }
            }
        },
        Some(SelectorModel::Line(line)) => {
            lemma_on_line(flows, entry, text, line, 0, Seq::empty());
            lemma_single(
                flows_on(flows, entry, text, line, 0, Seq::empty()),
                flows.len() as int,
                on_line(flows, entry, text, line),
            );
        },
        Some(SelectorModel::Id(asked)) => {},
        None => {
            lemma_declared(flows, DeclarationKind::Flow, 0, Seq::empty());
            lemma_single(
                declared(flows, DeclarationKind::Flow, 0, Seq::empty()),
                flows.len() as int,
                of_kind(flows, DeclarationKind::Flow),
            );
        },
    }
}

/// The tests of a file that a selector asks for.
pub open spec fn asked_for(
    flows: Seq<MettlePlanModel>,
    entry: usize,
    text: Seq<char>,
    selector: SelectorModel,
) -> spec_fn(int) -> bool {
    |k: int|
        flows[k].kind == DeclarationKind::Test && flows[k].span.source == entry && (
        match selector {
            SelectorModel::Name(name) => flows[k].display_name == name,
            SelectorModel::Line(line) => location(text, flows[k].span.start as int).0 == line,
            SelectorModel::Id(id) => k == id,
        })
}

proof fn lemma_tests_asked(
    flows: Seq<MettlePlanModel>,
    entry: usize,
    text: Seq<char>,
    selector: SelectorModel,
    from: int,
    done: Seq<usize>,
)
    requires
        flows.len() <= usize::MAX,
        0 <= from <= flows.len(),
        exactly(done, from, asked_for(flows, entry, text, selector)),
    ensures
        exactly(
            tests_asked(flows, entry, text, selector, from, done),
            flows.len() as int,
            asked_for(flows, entry, text, selector),
        ),
    decreases flows.len() - from,
{
    if from < flows.len() {
        let chosen = asked_for(flows, entry, text, selector);
        lemma_next(done, from, chosen);
        if in_batch(flows[from], DeclarationKind::Test, entry) && is_asked(
            flows,
            from,
            text,
            selector,
        ) {
            assert(chosen(from));
            lemma_tests_asked(flows, entry, text, selector, from + 1, done.push(from as usize));
        } else {
            assert(!chosen(from));
            lemma_tests_asked(flows, entry, text, selector, from + 1, done);
        }
    }
}

/// The tests that are run are those of the file, or the only one that the
/// selector asks for.
pub proof fn law_tests_are_selected(
    plan: ExecutionPlanModel,
    entry: usize,
    text: Seq<char>,
    selector: SelectorModel,
    id: usize,
)
    requires
        plan.flows.len() <= usize::MAX,
    ensures
        tests_of(plan, entry, text, Some(selector)) == Ok::<Seq<usize>, Seq<char>>(seq![id])
            <==> only(
            plan.flows.len() as int,
            id as int,
            asked_for(plan.flows, entry, text, selector),
        ),
        tests_of(plan, entry, text, Some(selector)) matches Ok(ids) ==> ids.len() == 1,
        tests_of(plan, entry, text, None) matches Ok(ids) && exactly(
            ids,
            plan.flows.len() as int,
            taken(plan.flows, DeclarationKind::Test, entry),
        ),
{
    let flows = plan.flows;
    lemma_tests_asked(flows, entry, text, selector, 0, Seq::empty());
    let ids = tests_asked(flows, entry, text, selector, 0, Seq::empty());
    let chosen = asked_for(flows, entry, text, selector);
    lemma_single(ids, flows.len() as int, chosen);
    if ids.len() == 1 {
        assert(ids =~= seq![ids[0]]);
        assert(seq![id][0] == id);
    }
    if only(flows.len() as int, id as int, chosen) {
        assert(ids =~= seq![id]);
    }
    lemma_batch(flows, DeclarationKind::Test, entry, 0, Seq::empty());
}

// ---------------------------------------------------------------------------
// The end of a command

/// A command exits with zero only where it succeeds, and each other end has a
/// code of its own.
pub proof fn law_codes_tell_the_end(one: Status, other: Status)
    ensures
        one.number() == 0 <==> one == Status::Success,
        one.number() == other.number() <==> one == other,
{
}

/// An interruption ends a command at once, and so does a failure where there is
/// only one run. A command succeeds only where no run has failed.
pub proof fn law_outcomes_decide_the_end(batch: Batch, outcome: RunOutcome)
    requires
        batch.well_formed(),
        batch.following() is Run,
    ensures
        outcome == RunOutcome::Interrupted <==> batch.after(outcome) == Next::Done(
            Status::Interrupted,
        ),
        batch.after(outcome) == Next::Done(Status::Success) <==> outcome == RunOutcome::Passed
            && batch.failed == 0 && batch.passed + 1 == batch.total,
        outcome == RunOutcome::Failed && !batch.several ==> batch.after(outcome) == Next::Done(
            Status::Failure,
        ),
        outcome != RunOutcome::Interrupted && (batch.several || outcome == RunOutcome::Passed)
            && batch.passed + batch.failed + 1 < batch.total ==> batch.after(outcome) == Next::Run(
            (batch.passed + batch.failed + 1) as usize,
        ),
{
}

/// Arguments are refused where all flows are to be run, and nothing else is.
pub proof fn law_all_flows_take_no_arguments(options: OptionsModel)
    ensures
        run_options(options) is Err <==> options.all && options.arguments.len() > 0,
        run_options(options) matches Ok(kept) ==> kept == options,
{
}

/// A plan runs only with the capabilities that it was made for, in their order.
pub proof fn law_capabilities_have_to_match(
    expected: Seq<Seq<char>>,
    actual: Seq<Seq<char>>,
    from: int,
)
    requires
        0 <= from <= expected.len(),
    ensures
        capability_fault(expected, actual, from) is None <==> expected.len() == actual.len()
            && forall|i: int| from <= i < expected.len() ==> #[trigger] expected[i] == actual[i],
    decreases expected.len() - from,
{
    if expected.len() == actual.len() && from < expected.len() {
        law_capabilities_have_to_match(expected, actual, from + 1);
        if expected[from] == actual[from] {
            if forall|i: int| from + 1 <= i < expected.len() ==> #[trigger] expected[i]
                == actual[i] {
                assert forall|i: int| from <= i < expected.len() implies #[trigger] expected[i]
                    == actual[i] by {
                    if i > from {
                        assert(from + 1 <= i);
                    }
                }
            }
        } else if forall|i: int| from <= i < expected.len() ==> #[trigger] expected[i]
            == actual[i] {
            assert(expected[from] == actual[from]);
        }
    }
}

} // verus!
