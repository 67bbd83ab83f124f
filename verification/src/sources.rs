//! The source files of a project, and diagnostics in them.

use vstd::prelude::*;
use vstd::string::*;

use crate::grammar::program_of;
use crate::lexer::Source;
use crate::parser::{parse, parsed_program};
use crate::positions::{
    find_index, find_line_start, index_at, line_start, location, source_location,
};
use crate::syntax::{
    context_models, file_context_models, flow_models, ErrorModel, MettleDecl, MettleDeclModel,
    Program, ProgramModel, Span, SyntaxError,
};
use crate::text::{
    begins_with, decimal, decimal_text, find_char, position_of, repeat, repeated, same, strip_prefix,
    text_between,
};

verus! {

/// A source file.
#[derive(Debug, PartialEq, Eq)]
pub struct SourceDocument {
    pub path: String,
    pub text: String,
}

pub struct DocumentModel {
    pub path: Seq<char>,
    pub text: Seq<char>,
}

impl SourceDocument {
    pub open spec fn model(self) -> DocumentModel {
        DocumentModel { path: self.path@, text: self.text@ }
    }
}

pub open spec fn document_models(documents: Seq<SourceDocument>) -> Seq<DocumentModel> {
    Seq::new(documents.len(), |i: int| documents[i].model())
}

// ---------------------------------------------------------------------------
// Diagnostics

/// A message with the line that it speaks of and a mark under the place.
pub open spec fn diagnostic(
    path: Seq<char>,
    text: Seq<char>,
    message: Seq<char>,
    span: Span,
) -> Seq<char> {
    let start = index_at(text, span.start as int);
    let begin = line_start(text, start);
    let end = position_of(text, '\n', start);
    let place = location(text, span.start as int);
    let stop = index_at(text, span.end as int);
    let marked = if stop < end {
        stop
    } else {
        end
    };
    let least = if start < end {
        start + 1
    } else {
        end
    };
    let last = if marked < least {
        least
    } else {
        marked
    };
    let width = if last - start < 1 {
        1
    } else {
        last - start
    };
    let number = decimal(place.0 as nat);
    let gutter = repeated(' ', number.len() as int);
    "error: "@ + message + "\n --> "@ + path + ":"@ + number + ":"@ + decimal(place.1 as nat) + "\n"@
        + gutter + " |\n"@ + number + " | "@ + text.subrange(begin, end) + "\n"@ + gutter + " | "@
        + repeated(' ', place.1 - 1) + repeated('^', width)
}

/// Shows a message with the line that it speaks of and a mark under the place.
pub fn render_source_diagnostic(path: &str, text: &str, message: &str, span: Span) -> (shown:
    String)
    ensures
        shown@ == diagnostic(path@, text@, message@, span),
{
    let source: Source = Source::new(text);
    let start: usize = find_index(&source, span.start);
    let begin: usize = find_line_start(&source.chars, start);
    let end: usize = find_char(&source.chars, '\n', start);
    let place: (usize, usize) = source_location(text, span.start);
    let stop: usize = find_index(&source, span.end);
    let marked: usize = if stop < end {
        stop
    } else {
        end
    };
    let least: usize = if start < end {
        start + 1
    } else {
        end
    };
    let last: usize = if marked < least {
        least
    } else {
        marked
    };
    let width: usize = if last - start < 1 {
        1
    } else {
        last - start
    };
    let number: String = decimal_text(place.0 as u128);
    let digits: Vec<char> = crate::text::chars_of(number.as_str());
    let gutter: String = repeat(' ', digits.len());
    let mut shown: String = "error: ".to_owned();
    shown.append(message);
    shown.append("\n --> ");
    shown.append(path);
    shown.append(":");
    shown.append(number.as_str());
    shown.append(":");
    shown.append(decimal_text(place.1 as u128).as_str());
    shown.append("\n");
    shown.append(gutter.as_str());
    shown.append(" |\n");
    shown.append(number.as_str());
    shown.append(" | ");
    shown.append(text_between(&source.chars, begin, end).as_str());
    shown.append("\n");
    shown.append(gutter.as_str());
    shown.append(" | ");
    shown.append(repeat(' ', place.1 - 1).as_str());
    shown.append(repeat('^', width).as_str());
    shown
}

// ---------------------------------------------------------------------------
// Projects

/// The declarations that have a name, from `from` on.
pub open spec fn named_flows(flows: Seq<MettleDeclModel>, from: int) -> Seq<MettleDeclModel>
    decreases flows.len() - from,
{
    if from < 0 || from >= flows.len() {
        Seq::empty()
    } else if flows[from].name is Some {
        seq![flows[from]] + named_flows(flows, from + 1)
    } else {
        named_flows(flows, from + 1)
    }
}

/// The program of one file of a project. Only the file that was asked for
/// keeps its flows without a name.
pub open spec fn file_program(text: Seq<char>, source: usize, entry: bool) -> Result<
    ProgramModel,
    ErrorModel,
> {
    match program_of(text) {
        Ok(program) => {
            let program = program.moved(source);
            Ok(
                if entry {
                    program
                } else {
                    ProgramModel { flows: named_flows(program.flows, 0), ..program }
                },
            )
        },
        Err(error) => Err(error),
    }
}

/// The project with the declarations of the files from `from` on, or the first
/// file with an error.
pub open spec fn joined_program(
    documents: Seq<DocumentModel>,
    entry: int,
    from: int,
    done: ProgramModel,
) -> Result<ProgramModel, (int, ErrorModel)>
    decreases documents.len() - from,
{
    if from < 0 || from >= documents.len() {
        Ok(done)
    } else {
        match file_program(documents[from].text, from as usize, from == entry) {
            Ok(program) => joined_program(
                documents,
                entry,
                from + 1,
                ProgramModel {
                    namespace: if from == entry {
                        program.namespace
                    } else {
                        done.namespace
                    },
                    namespace_uses: if from == entry {
                        program.namespace_uses
                    } else {
                        done.namespace_uses
                    },
                    contexts: done.contexts + program.contexts,
                    file_contexts: done.file_contexts + program.file_contexts,
                    flows: done.flows + program.flows,
                },
            ),
            Err(error) => Err((from, error)),
        }
    }
}

pub open spec fn empty_program() -> ProgramModel {
    ProgramModel {
        namespace: None,
        namespace_uses: Seq::empty(),
        contexts: Seq::empty(),
        file_contexts: Seq::empty(),
        flows: Seq::empty(),
    }
}

/// The program of a project.
pub open spec fn project_program(documents: Seq<DocumentModel>, entry: int) -> Result<
    ProgramModel,
    (int, ErrorModel),
> {
    joined_program(documents, entry, 0, empty_program())
}

proof fn lemma_flow_models_remove(flows: Seq<MettleDecl>, at: int)
    requires
        0 <= at < flows.len(),
    ensures
        flow_models(flows.remove(at)) == flow_models(flows).remove(at),
{
    assert(flow_models(flows.remove(at)) =~= flow_models(flows).remove(at));
}

fn keep_named(flows: &mut Vec<MettleDecl>)
    ensures
        flow_models(final(flows)@) == named_flows(flow_models(old(flows)@), 0),
{
    let ghost all = flow_models(flows@);
    let ghost mut kept: Seq<MettleDeclModel> = Seq::empty();
    let ghost mut from: int = 0;
    let mut at: usize = 0;
    proof {
        assert(all.skip(0) =~= all);
        assert(kept + all =~= all);
        assert(kept + named_flows(all, 0) =~= named_flows(all, 0));
    }
    while at < flows.len()
        invariant
            0 <= from <= all.len(),
            flow_models(flows@) == kept + all.skip(from),
            kept.len() == at,
            named_flows(all, 0) == kept + named_flows(all, from),
            flows@.len() == kept.len() + all.len() - from,
        decreases all.len() - from,
    {
        proof {
            assert(flow_models(flows@)[at as int] == flows@[at as int].model());
            assert((kept + all.skip(from))[at as int] == all[from]);
        }
        if flows[at].name.is_some() {
            at += 1;
            proof {
                assert(kept + (seq![all[from]] + named_flows(all, from + 1)) =~= kept.push(
                    all[from],
                ) + named_flows(all, from + 1));
                assert(kept + all.skip(from) =~= kept.push(all[from]) + all.skip(from + 1));
                kept = kept.push(all[from]);
                from = from + 1;
            }
        } else {
            proof {
                lemma_flow_models_remove(flows@, at as int);
                assert((kept + all.skip(from)).remove(at as int) =~= kept + all.skip(from + 1));
                from = from + 1;
            }
            flows.remove(at);
        }
    }
    proof {
        assert(all.skip(from) =~= Seq::empty());
        assert(kept + Seq::<MettleDeclModel>::empty() =~= kept);
    }
}

/// A project: its program, and the files that it was read from.
#[derive(Debug, PartialEq)]
pub struct LoadedProject {
    pub program: Program,
    pub sources: Vec<SourceDocument>,
    pub entry_source: usize,
}

/// Why a project cannot be read.
#[derive(Debug, PartialEq)]
pub struct LoadError {
    pub source: usize,
    pub error: SyntaxError,
    pub shown: String,
}

fn load_file(text: &str, source: usize, entry: bool) -> (result: Result<Program, SyntaxError>)
    ensures
        parsed_program(result) == file_program(text@, source, entry),
{
    match parse(text) {
        Ok(program) => {
            let mut program: Program = program;
            program.set_source(source);
            if !entry {
                keep_named(&mut program.flows);
            }
            Ok(program)
        },
        Err(error) => Err(error),
    }
}

/// Reads the files of a project into one program.
pub fn load_sources(sources: Vec<SourceDocument>, entry_source: usize) -> (result: Result<
    LoadedProject,
    LoadError,
>)
    ensures
        match result {
            Ok(project) => project_program(document_models(sources@), entry_source as int) == Ok::<
                ProgramModel,
                (int, ErrorModel),
            >(project.program.model()) && project.sources == sources && project.entry_source
                == entry_source,
            Err(error) => project_program(document_models(sources@), entry_source as int) == Err::<
                ProgramModel,
                (int, ErrorModel),
            >((error.source as int, error.error.model())) && error.source < sources@.len()
                && error.shown@ == diagnostic(
                sources@[error.source as int].path@,
                sources@[error.source as int].text@,
                error.error.message@,
                error.error.span,
            ),
        },
{
    let ghost documents = document_models(sources@);
    let mut program: Program = Program {
        namespace: None,
        namespace_uses: Vec::new(),
        contexts: Vec::new(),
        file_contexts: Vec::new(),
        flows: Vec::new(),
    };
    proof {
        assert(program.model().namespace_uses =~= Seq::empty());
        assert(program.model().contexts =~= Seq::empty());
        assert(program.model().file_contexts =~= Seq::empty());
        assert(program.model().flows =~= Seq::empty());
    }
    let mut at: usize = 0;
    while at < sources.len()
        invariant
            documents == document_models(sources@),
            at <= sources@.len(),
            project_program(documents, entry_source as int) == joined_program(
                documents,
                entry_source as int,
                at as int,
                program.model(),
            ),
        decreases sources@.len() - at,
    {
        let ghost before = program.model();
        proof {
            assert(documents[at as int] == sources@[at as int].model());
        }
        match load_file(sources[at].text.as_str(), at, at == entry_source) {
            Ok(file) => {
                let ghost found = file.model();
                let mut file: Program = file;
                let ghost c = program.contexts@;
                let ghost d = file.contexts@;
                let ghost f = program.file_contexts@;
                let ghost g = file.file_contexts@;
                let ghost h = program.flows@;
                let ghost k = file.flows@;
                program.contexts.append(&mut file.contexts);
                program.file_contexts.append(&mut file.file_contexts);
                program.flows.append(&mut file.flows);
                if at == entry_source {
                    program.namespace = file.namespace;
                    program.namespace_uses = file.namespace_uses;
                }
                proof {
                    assert(context_models(c + d) =~= context_models(c) + context_models(d));
                    assert(file_context_models(f + g) =~= file_context_models(f)
                        + file_context_models(g));
                    assert(flow_models(h + k) =~= flow_models(h) + flow_models(k));
                }
            },
            Err(error) => {
                let shown: String = render_source_diagnostic(
                    sources[at].path.as_str(),
                    sources[at].text.as_str(),
                    error.message.as_str(),
                    error.span,
                );
                return Err(LoadError { source: at, error, shown });
            },
        }
        at += 1;
    }
    Ok(LoadedProject { program, sources, entry_source })
}

/// The file that a span lies in, or the one that was asked for.
pub open spec fn document_of(project: LoadedProject, span: Span) -> DocumentModel {
    if span.source < project.sources@.len() {
        project.sources@[span.source as int].model()
    } else {
        project.sources@[project.entry_source as int].model()
    }
}

/// Shows a message on a project.
pub fn render_diagnostic(project: &LoadedProject, message: &str, span: Span) -> (shown: String)
    requires
        project.entry_source < project.sources@.len(),
    ensures
        shown@ == diagnostic(
            document_of(*project, span).path,
            document_of(*project, span).text,
            message@,
            span,
        ),
{
    let index: usize = if span.source < project.sources.len() {
        span.source
    } else {
        project.entry_source
    };
    let source: &SourceDocument = &project.sources[index];
    render_source_diagnostic(source.path.as_str(), source.text.as_str(), message, span)
}

/// Whether the directory of a name is searched for the sources of a project:
/// hidden ones and build outputs are not.
pub open spec fn searched(name: Seq<char>) -> bool {
    !begins_with(name, "."@) && name != "target"@
}

/// Whether to look for sources in a directory.
pub fn is_searched(name: &str) -> (yes: bool)
    ensures
        yes == searched(name@),
{
    strip_prefix(name, ".").is_none() && !same(name, "target")
}

} // verus!
