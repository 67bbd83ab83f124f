//! The options of the command line.

use vstd::prelude::*;
use vstd::string::*;

use crate::capability::pair_models;
use crate::plan::optional_text;
use crate::selection::{optional_selector, MettleSelector, SelectorModel};
use crate::text::{
    chars_of, digit_char, is_digit, is_letter, letter_char, same, split_at, split_once, wrapped,
};

verus! {

/// How results are shown.
#[derive(Clone, Copy, Debug, PartialEq, Eq, Structural)]
pub enum OutputMode {
    Human,
    Verbose,
    Quiet,
    Raw,
    Json,
}

/// What a run was asked to do.
#[derive(Debug, PartialEq, Eq)]
pub struct RunOptions {
    pub selector: Option<MettleSelector>,
    pub all: bool,
    pub arguments: Vec<(String, String)>,
    pub profile: Option<String>,
    pub output: OutputMode,
    pub progress: bool,
    pub color: bool,
}

pub struct OptionsModel {
    pub selector: Option<SelectorModel>,
    pub all: bool,
    pub arguments: Seq<(Seq<char>, Seq<char>)>,
    pub profile: Option<Seq<char>>,
    pub output: OutputMode,
    pub progress: bool,
    pub color: bool,
}

impl RunOptions {
    pub open spec fn model(self) -> OptionsModel {
        OptionsModel {
            selector: optional_selector(self.selector),
            all: self.all,
            arguments: pair_models(self.arguments@),
            profile: optional_text(self.profile),
            output: self.output,
            progress: self.progress,
            color: self.color,
        }
    }
}

impl OptionsModel {
    pub open spec fn usual() -> OptionsModel {
        OptionsModel {
            selector: None,
            all: false,
            arguments: Seq::empty(),
            profile: None,
            output: OutputMode::Human,
            progress: true,
            color: true,
        }
    }
}

impl Default for RunOptions {
    fn default() -> (options: RunOptions)
        ensures
            options.model() == OptionsModel::usual(),
    {
        let options: RunOptions = RunOptions {
            selector: None,
            all: false,
            arguments: Vec::new(),
            profile: None,
            output: OutputMode::Human,
            progress: true,
            color: true,
        };
        proof {
            assert(pair_models(options.arguments@) =~= Seq::empty());
        }
        options
    }
}

// ---------------------------------------------------------------------------
// Counts

/// The number that digits stand for.
pub open spec fn digits_value(text: Seq<char>) -> nat
    decreases text.len(),
{
    if text.len() == 0 {
        0
    } else {
        digits_value(text.drop_last()) * 10 + (text.last() as nat - 48) as nat
    }
}

pub open spec fn all_digits(text: Seq<char>) -> bool {
    forall|i: int| 0 <= i < text.len() ==> is_digit(#[trigger] text[i])
}

/// A count: digits, with a plus sign in front or without.
pub open spec fn count_of(text: Seq<char>) -> Option<usize> {
    let digits = if text.len() > 0 && text[0] == '+' {
        text.skip(1)
    } else {
        text
    };
    if digits.len() > 0 && all_digits(digits) && digits_value(digits) <= usize::MAX {
        Some(digits_value(digits) as usize)
    } else {
        None
    }
}

proof fn lemma_value_grows(text: Seq<char>, until: int)
    requires
        all_digits(text),
        0 <= until <= text.len(),
    ensures
        digits_value(text.take(until)) <= digits_value(text),
    decreases text.len() - until,
{
    if until < text.len() {
        lemma_value_grows(text, until + 1);
        let longer = text.take(until + 1);
        assert(longer.drop_last() =~= text.take(until));
        assert(is_digit(text[until]));
    } else {
        assert(text.take(until) =~= text);
    }
}

proof fn lemma_next_digit(digits: Seq<char>, at: int)
    requires
        0 <= at < digits.len(),
    ensures
        digits_value(digits.take(at + 1)) == digits_value(digits.take(at)) * 10 + (digits[at] as nat
            - 48) as nat,
{
    let longer = digits.take(at + 1);
    assert(longer.drop_last() =~= digits.take(at));
    assert(longer.last() == digits[at]);
}

fn read_digits(digits: &Vec<char>) -> (count: Option<usize>)
    ensures
        count == (if all_digits(digits@) && digits_value(digits@) <= usize::MAX {
            Some(digits_value(digits@) as usize)
        } else {
            None
        }),
{
    let ghost all = digits@;
    let mut value: u128 = 0;
    let mut at: usize = 0;
    proof {
        assert(all.take(0) =~= Seq::empty());
    }
    while at < digits.len()
        invariant
            all == digits@,
            at <= all.len(),
            forall|i: int| 0 <= i < at ==> is_digit(#[trigger] all[i]),
            value == digits_value(all.take(at as int)),
            value <= usize::MAX,
        decreases all.len() - at,
    {
        let c: char = digits[at];
        if !digit_char(c) {
            return None;
        }
        proof {
            lemma_next_digit(all, at as int);
        }
        value = value * 10 + (c as u32 - 48) as u128;
        at += 1;
        if value > usize::MAX as u128 {
            proof {
                if all_digits(all) {
                    lemma_value_grows(all, at as int);
                }
            }
            return None;
        }
    }
    proof {
        assert(all.take(at as int) =~= all);
    }
    Some(value as usize)
}

/// Reads a count.
pub fn parse_count(text: &str) -> (count: Option<usize>)
    ensures
        count == count_of(text@),
{
    let mut chars: Vec<char> = chars_of(text);
    if chars.len() > 0 && chars[0] == '+' {
        chars.remove(0);
        proof {
            assert(chars@ =~= text@.skip(1));
        }
    }
    if chars.len() == 0 {
        return None;
    }
    read_digits(&chars)
}

// ---------------------------------------------------------------------------
// Single options

/// Whether a profile may have a name.
pub open spec fn is_profile_name(name: Seq<char>) -> bool {
    &&& name.len() > 0
    &&& forall|i: int|
        0 <= i < name.len() ==> is_letter(#[trigger] name[i]) || is_digit(name[i]) || name[i] == '_'
            || name[i] == '-'
}

pub fn valid_profile_name(name: &str) -> (yes: bool)
    ensures
        yes == is_profile_name(name@),
{
    let chars: Vec<char> = chars_of(name);
    let mut at: usize = 0;
    while at < chars.len()
        invariant
            chars@ == name@,
            at <= chars@.len(),
            forall|i: int|
                0 <= i < at ==> is_letter(#[trigger] name@[i]) || is_digit(name@[i]) || name@[i]
                    == '_' || name@[i] == '-',
        decreases chars@.len() - at,
    {
        let c: char = chars[at];
        if !letter_char(c) && !digit_char(c) && c != '_' && c != '-' {
            proof {
                assert(name@[at as int] == c);
            }
            return false;
        }
        at += 1;
    }
    chars.len() > 0
}

/// The options with a selector.
pub open spec fn with_selector(options: OptionsModel, selector: SelectorModel) -> Result<
    OptionsModel,
    Seq<char>,
> {
    if options.all {
        Err("a flow name, line, or ID cannot be combined with `--all`"@)
    } else if options.selector is Some {
        Err("select a flow by name or line, not both"@)
    } else {
        Ok(OptionsModel { selector: Some(selector), ..options })
    }
}

/// The options with an output mode.
pub open spec fn with_output(options: OptionsModel, output: OutputMode, flag: Seq<char>) -> Result<
    OptionsModel,
    Seq<char>,
> {
    if options.output != OutputMode::Human {
        Err(
            "select only one output mode; `"@ + flag
                + "` conflicts with an earlier output option"@,
        )
    } else {
        Ok(OptionsModel { output, ..options })
    }
}

pub open spec fn with_all(options: OptionsModel) -> Result<OptionsModel, Seq<char>> {
    if options.all {
        Err("`--all` was supplied more than once"@)
    } else if options.selector is Some {
        Err("`--all` cannot be combined with a flow name, line, or ID"@)
    } else {
        Ok(OptionsModel { all: true, ..options })
    }
}

pub open spec fn with_line(options: OptionsModel, value: Option<Seq<char>>) -> Result<
    OptionsModel,
    Seq<char>,
> {
    match value {
        None => Err("`--line` requires a line number"@),
        Some(text) => match count_of(text) {
            None => Err("`--line` requires a positive line number"@),
            Some(line) => if line == 0 {
                Err("`--line` requires a positive line number"@)
            } else {
                with_selector(options, SelectorModel::Line(line))
            },
        },
    }
}

pub open spec fn with_argument(options: OptionsModel, value: Option<Seq<char>>) -> Result<
    OptionsModel,
    Seq<char>,
> {
    match value {
        None => Err("`--arg` requires `name=value`"@),
        Some(text) => match split_at(text, '=') {
            None => Err("`--arg` requires `name=value`"@),
            Some((name, rest)) => if name.len() == 0 {
                Err("flow argument names cannot be empty"@)
            } else {
                Ok(OptionsModel { arguments: options.arguments.push((name, rest)), ..options })
            },
        },
    }
}

pub open spec fn with_profile(options: OptionsModel, value: Option<Seq<char>>) -> Result<
    OptionsModel,
    Seq<char>,
> {
    match value {
        None => Err("`--profile` requires a name"@),
        Some(name) => if !is_profile_name(name) {
            Err("profile names must use letters, digits, `_`, or `-`"@)
        } else if options.profile is Some {
            Err("`--profile` was supplied more than once"@)
        } else {
            Ok(OptionsModel { profile: Some(name), ..options })
        },
    }
}

pub open spec fn with_id(options: OptionsModel, value: Option<Seq<char>>) -> Result<
    OptionsModel,
    Seq<char>,
> {
    match value {
        None => Err("`--flow-id` requires an ID"@),
        Some(text) => match count_of(text) {
            None => Err("`--flow-id` requires a non-negative integer"@),
            Some(id) => with_selector(options, SelectorModel::Id(id)),
        },
    }
}

pub open spec fn with_format(options: OptionsModel, value: Option<Seq<char>>) -> Result<
    OptionsModel,
    Seq<char>,
> {
    match value {
        None => Err("`--output` requires `json`"@),
        Some(format) => if format != "json"@ {
            Err("unsupported output format `"@ + format + "`; expected `json`"@)
        } else {
            with_output(options, OutputMode::Json, "--output json"@)
        },
    }
}

/// Whether an option takes the argument behind it.
pub open spec fn takes_value(argument: Seq<char>) -> bool {
    argument == "--line"@ || argument == "--arg"@ || argument == "--profile"@ || argument
        == "--flow-id"@ || argument == "--output"@
}

/// The options with one more argument.
pub open spec fn with_option(
    options: OptionsModel,
    argument: Seq<char>,
    value: Option<Seq<char>>,
) -> Result<OptionsModel, Seq<char>> {
    if argument == "--all"@ {
        with_all(options)
    } else if argument == "--line"@ {
        with_line(options, value)
    } else if argument == "--arg"@ {
        with_argument(options, value)
    } else if argument == "--profile"@ {
        with_profile(options, value)
    } else if argument == "--flow-id"@ {
        with_id(options, value)
    } else if argument == "--verbose"@ || argument == "--pretty"@ {
        with_output(options, OutputMode::Verbose, argument)
    } else if argument == "--raw"@ {
        with_output(options, OutputMode::Raw, argument)
    } else if argument == "--quiet"@ {
        with_output(options, OutputMode::Quiet, argument)
    } else if argument == "--output"@ {
        with_format(options, value)
    } else if argument == "--no-progress"@ {
        Ok(OptionsModel { progress: false, ..options })
    } else if argument == "--no-color"@ {
        Ok(OptionsModel { color: false, ..options })
    } else if argument.len() > 0 && argument[0] == '-' {
        Err("unknown run option `"@ + argument + "`"@)
    } else {
        with_selector(options, SelectorModel::Name(argument))
    }
}

/// The options with all arguments from `from` on. An argument that is no text
/// stands as none.
pub open spec fn options_from(
    arguments: Seq<Option<Seq<char>>>,
    from: int,
    options: OptionsModel,
) -> Result<OptionsModel, Seq<char>>
    decreases arguments.len() - from,
{
    if from < 0 || from >= arguments.len() {
        Ok(options)
    } else {
        match arguments[from] {
            None => Err("run options must be valid UTF-8"@),
            Some(argument) => {
                let value = if from + 1 < arguments.len() {
                    arguments[from + 1]
                } else {
                    None
                };
                match with_option(options, argument, value) {
                    Err(message) => Err(message),
                    Ok(options) => options_from(
                        arguments,
                        if takes_value(argument) && from + 1 < arguments.len() {
                            from + 2
                        } else {
                            from + 1
                        },
                        options,
                    ),
                }
            },
        }
    }
}

pub open spec fn texts_of(arguments: Seq<Option<String>>) -> Seq<Option<Seq<char>>> {
    Seq::new(arguments.len(), |i: int| optional_text(arguments[i]))
}

pub open spec fn options_result(result: Result<RunOptions, String>) -> Result<
    OptionsModel,
    Seq<char>,
> {
    match result {
        Ok(options) => Ok(options.model()),
        Err(message) => Err(message@),
    }
}

pub open spec fn optional_reference(text: Option<&String>) -> Option<Seq<char>> {
    match text {
        Some(text) => Some(text@),
        None => None,
    }
}

fn set_selector(options: RunOptions, selector: MettleSelector) -> (result: Result<
    RunOptions,
    String,
>)
    ensures
        options_result(result) == with_selector(options.model(), selector.model()),
{
    if options.all {
        return Err("a flow name, line, or ID cannot be combined with `--all`".to_owned());
    }
    if options.selector.is_some() {
        return Err("select a flow by name or line, not both".to_owned());
    }
    let mut options: RunOptions = options;
    options.selector = Some(selector);
    Ok(options)
}

fn set_output_mode(options: RunOptions, output: OutputMode, flag: &str) -> (result: Result<
    RunOptions,
    String,
>)
    ensures
        options_result(result) == with_output(options.model(), output, flag@),
{
    if options.output != OutputMode::Human {
        return Err(
            wrapped(
                "select only one output mode; `",
                flag,
                "` conflicts with an earlier output option",
            ),
        );
    }
    let mut options: RunOptions = options;
    options.output = output;
    Ok(options)
}

fn set_all(options: RunOptions) -> (result: Result<RunOptions, String>)
    ensures
        options_result(result) == with_all(options.model()),
{
    if options.all {
        return Err("`--all` was supplied more than once".to_owned());
    }
    if options.selector.is_some() {
        return Err("`--all` cannot be combined with a flow name, line, or ID".to_owned());
    }
    let mut options: RunOptions = options;
    options.all = true;
    Ok(options)
}

fn set_line(options: RunOptions, value: Option<&String>) -> (result: Result<RunOptions, String>)
    ensures
        options_result(result) == with_line(options.model(), optional_reference(value)),
{
    match value {
        None => Err("`--line` requires a line number".to_owned()),
        Some(text) => match parse_count(text.as_str()) {
            None => Err("`--line` requires a positive line number".to_owned()),
            Some(line) => if line == 0 {
                Err("`--line` requires a positive line number".to_owned())
            } else {
                set_selector(options, MettleSelector::Line(line))
            },
        },
    }
}

fn parse_named_argument(options: RunOptions, value: Option<&String>) -> (result: Result<
    RunOptions,
    String,
>)
    ensures
        options_result(result) == with_argument(options.model(), optional_reference(value)),
{
    match value {
        None => Err("`--arg` requires `name=value`".to_owned()),
        Some(text) => match split_once(text.as_str(), '=') {
            None => Err("`--arg` requires `name=value`".to_owned()),
            Some((name, rest)) => {
                let letters: Vec<char> = chars_of(name.as_str());
                if letters.len() == 0 {
                    return Err("flow argument names cannot be empty".to_owned());
                }
                let ghost before = options.arguments@;
                let mut options: RunOptions = options;
                options.arguments.push((name, rest));
                proof {
                    assert(pair_models(options.arguments@) =~= pair_models(before).push(
                        (name@, rest@),
                    ));
                }
                Ok(options)
            },
        },
    }
}

fn parse_profile_option(options: RunOptions, value: Option<&String>) -> (result: Result<
    RunOptions,
    String,
>)
    ensures
        options_result(result) == with_profile(options.model(), optional_reference(value)),
{
    match value {
        None => Err("`--profile` requires a name".to_owned()),
        Some(name) => {
            if !valid_profile_name(name.as_str()) {
                return Err("profile names must use letters, digits, `_`, or `-`".to_owned());
            }
            if options.profile.is_some() {
                return Err("`--profile` was supplied more than once".to_owned());
            }
            let mut options: RunOptions = options;
            options.profile = Some(name.clone());
            Ok(options)
        },
    }
}

fn set_id(options: RunOptions, value: Option<&String>) -> (result: Result<RunOptions, String>)
    ensures
        options_result(result) == with_id(options.model(), optional_reference(value)),
{
    match value {
        None => Err("`--flow-id` requires an ID".to_owned()),
        Some(text) => match parse_count(text.as_str()) {
            None => Err("`--flow-id` requires a non-negative integer".to_owned()),
            Some(id) => set_selector(options, MettleSelector::Id(id)),
        },
    }
}

fn parse_output_format(options: RunOptions, value: Option<&String>) -> (result: Result<
    RunOptions,
    String,
>)
    ensures
        options_result(result) == with_format(options.model(), optional_reference(value)),
{
    match value {
        None => Err("`--output` requires `json`".to_owned()),
        Some(format) => if !same(format.as_str(), "json") {
            Err(wrapped("unsupported output format `", format.as_str(), "`; expected `json`"))
        } else {
            set_output_mode(options, OutputMode::Json, "--output json")
        },
    }
}

fn parse_option(options: RunOptions, argument: &str, value: Option<&String>) -> (result: Result<
    RunOptions,
    String,
>)
    ensures
        options_result(result) == with_option(
            options.model(),
            argument@,
            optional_reference(value),
        ),
{
    if same(argument, "--all") {
        return set_all(options);
    }
    if same(argument, "--line") {
        return set_line(options, value);
    }
    if same(argument, "--arg") {
        return parse_named_argument(options, value);
    }
    if same(argument, "--profile") {
        return parse_profile_option(options, value);
    }
    if same(argument, "--flow-id") {
        return set_id(options, value);
    }
    if same(argument, "--verbose") || same(argument, "--pretty") {
        return set_output_mode(options, OutputMode::Verbose, argument);
    }
    if same(argument, "--raw") {
        return set_output_mode(options, OutputMode::Raw, argument);
    }
    if same(argument, "--quiet") {
        return set_output_mode(options, OutputMode::Quiet, argument);
    }
    if same(argument, "--output") {
        return parse_output_format(options, value);
    }
    let mut options: RunOptions = options;
    if same(argument, "--no-progress") {
        options.progress = false;
        return Ok(options);
    }
    if same(argument, "--no-color") {
        options.color = false;
        return Ok(options);
    }
    let letters: Vec<char> = chars_of(argument);
    if letters.len() > 0 && letters[0] == '-' {
        return Err(wrapped("unknown run option `", argument, "`"));
    }
    set_selector(options, MettleSelector::Name(argument.to_owned()))
}

fn has_value(argument: &str) -> (yes: bool)
    ensures
        yes == takes_value(argument@),
{
    same(argument, "--line") || same(argument, "--arg") || same(argument, "--profile") || same(
        argument,
        "--flow-id",
    ) || same(argument, "--output")
}

/// Reads the options of a run. An argument that is no text stands as none.
pub fn parse_run_options(arguments: &Vec<Option<String>>) -> (result: Result<RunOptions, String>)
    ensures
        options_result(result) == options_from(texts_of(arguments@), 0, OptionsModel::usual()),
{
    parse_options_from(arguments, 0)
}

fn parse_options_from(arguments: &Vec<Option<String>>, start: usize) -> (result: Result<
    RunOptions,
    String,
>)
    ensures
        options_result(result) == options_from(
            texts_of(arguments@),
            start as int,
            OptionsModel::usual(),
        ),
{
    let ghost texts = texts_of(arguments@);
    let mut options: RunOptions = RunOptions::default();
    let mut at: usize = start;
    while at < arguments.len()
        invariant
            texts == texts_of(arguments@),
            options_from(texts, start as int, OptionsModel::usual()) == options_from(
                texts,
                at as int,
                options.model(),
            ),
        decreases arguments@.len() - at,
    {
        let total: usize = arguments.len();
        proof {
            assert(texts[at as int] == optional_text(arguments@[at as int]));
        }
        match &arguments[at] {
            None => {
                return Err("run options must be valid UTF-8".to_owned());
            },
            Some(argument) => {
                let value: Option<&String> = if at + 1 < total {
                    proof {
                        assert(texts[at + 1] == optional_text(arguments@[at + 1]));
                    }
                    match &arguments[at + 1] {
                        Some(value) => Some(value),
                        None => None,
                    }
                } else {
                    None
                };
                match parse_option(options, argument.as_str(), value) {
                    Err(message) => {
                        return Err(message);
                    },
                    Ok(next) => {
                        options = next;
                    },
                }
                if has_value(argument.as_str()) && at + 1 < total {
                    at += 2;
                } else {
                    at += 1;
                }
            },
        }
    }
    Ok(options)
}

// ---------------------------------------------------------------------------
// Commands

/// What the program was asked to do. The file is the argument behind the
/// command.
#[derive(Debug, PartialEq, Eq)]
pub enum Command {
    Help,
    Version,
    Check,
    List { json: bool },
    Run(RunOptions),
    Test(RunOptions),
    Lsp,
}

pub enum CommandModel {
    Help,
    Version,
    Check,
    List { json: bool },
    Run(OptionsModel),
    Test(OptionsModel),
    Lsp,
}

impl Command {
    pub open spec fn model(self) -> CommandModel {
        match self {
            Command::Help => CommandModel::Help,
            Command::Version => CommandModel::Version,
            Command::Check => CommandModel::Check,
            Command::List { json } => CommandModel::List { json },
            Command::Run(options) => CommandModel::Run(options.model()),
            Command::Test(options) => CommandModel::Test(options.model()),
            Command::Lsp => CommandModel::Lsp,
        }
    }
}

/// The options of a run, where they may be combined.
pub open spec fn run_options(options: OptionsModel) -> Result<OptionsModel, Seq<char>> {
    if options.all && options.arguments.len() > 0 {
        Err("`--arg` cannot be used with `--all`; parameterized flows are skipped"@)
    } else {
        Ok(options)
    }
}

/// The options of tests, where they may be given.
pub open spec fn test_options(options: OptionsModel) -> Result<OptionsModel, Seq<char>> {
    if options.all || options.selector matches Some(SelectorModel::Id(_))
        || options.arguments.len() > 0 || options.output == OutputMode::Raw {
        Err("`mettle test` accepts a test name or line and output options only"@)
    } else {
        Ok(options)
    }
}

/// What the arguments ask for.
pub open spec fn command_of(arguments: Seq<Option<Seq<char>>>) -> Result<CommandModel, Seq<char>> {
    if arguments.len() == 0 || arguments[0] is None {
        Err("a command is required"@)
    } else {
        let command = arguments[0]->0;
        let count = arguments.len();
        if (command == "--help"@ || command == "-h"@) && count == 1 {
            Ok(CommandModel::Help)
        } else if (command == "--version"@ || command == "-V"@) && count == 1 {
            Ok(CommandModel::Version)
        } else if command == "check"@ && count == 2 {
            Ok(CommandModel::Check)
        } else if command == "list"@ && count == 2 {
            Ok(CommandModel::List { json: false })
        } else if command == "list"@ && count == 3 && arguments[2] == Some("--json"@) {
            Ok(CommandModel::List { json: true })
        } else if command == "run"@ && count >= 2 {
            match options_from(arguments, 2, OptionsModel::usual()) {
                Ok(options) => Ok(CommandModel::Run(options)),
                Err(message) => Err(message),
            }
        } else if command == "test"@ && count >= 2 {
            match options_from(arguments, 2, OptionsModel::usual()) {
                Ok(options) => match test_options(options) {
                    Ok(options) => Ok(CommandModel::Test(options)),
                    Err(message) => Err(message),
                },
                Err(message) => Err(message),
            }
        } else if command == "lsp"@ && count == 1 {
            Ok(CommandModel::Lsp)
        } else {
            Err("unknown command or invalid arguments: `"@ + command + "`"@)
        }
    }
}

pub open spec fn command_result(result: Result<Command, String>) -> Result<
    CommandModel,
    Seq<char>,
> {
    match result {
        Ok(command) => Ok(command.model()),
        Err(message) => Err(message@),
    }
}

/// Checks the options of a run once its project has been read.
pub fn check_run_options(options: &RunOptions) -> (result: Result<(), String>)
    ensures
        match result {
            Ok(_) => run_options(options.model()) is Ok,
            Err(message) => run_options(options.model()) == Err::<OptionsModel, Seq<char>>(
                message@,
            ),
        },
{
    if options.all && options.arguments.len() > 0 {
        Err("`--arg` cannot be used with `--all`; parameterized flows are skipped".to_owned())
    } else {
        Ok(())
    }
}

fn check_test_options(options: RunOptions) -> (result: Result<RunOptions, String>)
    ensures
        options_result(result) == test_options(options.model()),
{
    let by_id: bool = match &options.selector {
        Some(MettleSelector::Id(_)) => true,
        _ => false,
    };
    if options.all || by_id || options.arguments.len() > 0 || options.output == OutputMode::Raw {
        return Err("`mettle test` accepts a test name or line and output options only".to_owned());
    }
    Ok(options)
}

/// Reads what the arguments ask for. An argument that is no text stands as
/// none.
pub fn parse_command(arguments: &Vec<Option<String>>) -> (result: Result<Command, String>)
    ensures
        command_result(result) == command_of(texts_of(arguments@)),
{
    let ghost texts = texts_of(arguments@);
    let count: usize = arguments.len();
    if count == 0 {
        return Err("a command is required".to_owned());
    }
    proof {
        assert(texts[0] == optional_text(arguments@[0]));
    }
    let command: &str = match &arguments[0] {
        None => {
            return Err("a command is required".to_owned());
        },
        Some(command) => command.as_str(),
    };
    if (same(command, "--help") || same(command, "-h")) && count == 1 {
        return Ok(Command::Help);
    }
    if (same(command, "--version") || same(command, "-V")) && count == 1 {
        return Ok(Command::Version);
    }
    if same(command, "check") && count == 2 {
        return Ok(Command::Check);
    }
    if same(command, "list") && count == 2 {
        return Ok(Command::List { json: false });
    }
    if same(command, "list") && count == 3 {
        proof {
            assert(texts[2] == optional_text(arguments@[2]));
        }
        if let Some(flag) = &arguments[2] {
            if same(flag.as_str(), "--json") {
                return Ok(Command::List { json: true });
            }
        }
    }
    if same(command, "run") && count >= 2 {
        return match parse_options_from(arguments, 2) {
            Ok(options) => Ok(Command::Run(options)),
            Err(message) => Err(message),
        };
    }
    if same(command, "test") && count >= 2 {
        return match parse_options_from(arguments, 2) {
            Ok(options) => match check_test_options(options) {
                Ok(options) => Ok(Command::Test(options)),
                Err(message) => Err(message),
            },
            Err(message) => Err(message),
        };
    }
    if same(command, "lsp") && count == 1 {
        return Ok(Command::Lsp);
    }
    Err(wrapped("unknown command or invalid arguments: `", command, "`"))
}

} // verus!
