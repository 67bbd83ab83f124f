//! Finding what is declared where, for editors.

use vstd::prelude::*;
use vstd::string::*;

use crate::names::{
    qualified, qualified_name, resolution, resolve_visible_name, NameResolution, NameTable, Names,
    ResolutionModel,
};
use crate::syntax::{
    branch_models, context_models, expression_models, field_models, flow_models, if_branch_models,
    member_models, optional_expression_model, spanned_models, statement_models, ContextDecl,
    ContextDeclModel, ContextMember, ContextMemberModel, DeclarationKind, Expression,
    ExpressionKind, ExpressionKindModel, ExpressionModel, FileContextUse, FileContextUseModel,
    IfBranch, IfBranchModel, MettleDecl, MettleDeclModel, ObjectField, ObjectFieldModel,
    ParallelBranch, ParallelBranchModel, Program, ProgramModel, Span, Spanned, SpannedModel,
    Statement, StatementModel,
};
use crate::text::{find_char, chars_of, has_char, position_of, same, text_between};

verus! {

// ---------------------------------------------------------------------------
// Questions

/// A name that can be used in a flow, where it is introduced, and whether it is
/// bound to an expression there.
pub struct LocalModel {
    pub name: Seq<char>,
    pub span: Span,
    pub bound: bool,
}

/// The local of the name; a later one hides earlier ones.
pub open spec fn local_of(locals: Seq<LocalModel>, name: Seq<char>) -> Option<LocalModel>
    decreases locals.len(),
{
    if locals.len() == 0 {
        None
    } else if locals.last().name == name {
        Some(locals.last())
    } else {
        local_of(locals.drop_last(), name)
    }
}

/// The name before the first dot.
pub open spec fn root_of(path: Seq<char>) -> Seq<char> {
    path.subrange(0, position_of(path, '.', 0))
}

/// Where a flow stands: its namespace and the namespaces in use there.
pub struct HomeModel {
    pub namespace: Seq<char>,
    pub uses: Seq<SpannedModel>,
}

/// A question about a place: what is declared, or with `implementation` what
/// stands behind it, at a byte of a source file.
pub struct QuestionModel {
    pub program: ProgramModel,
    pub source: usize,
    pub byte: usize,
    pub implementation: bool,
}

/// The names of the contexts up to `count`.
pub open spec fn context_table(contexts: Seq<ContextDeclModel>, count: int) -> NameTable
    decreases count,
{
    if count <= 0 {
        Seq::empty()
    } else {
        let context = contexts[count - 1];
        match context.name {
            Some(name) => context_table(contexts, count - 1).push(
                (qualified(context.namespace, name.value), count - 1),
            ),
            None => context_table(contexts, count - 1),
        }
    }
}

/// The names of the flows up to `count`; tests have none to be called by.
pub open spec fn flow_table(flows: Seq<MettleDeclModel>, count: int) -> NameTable
    decreases count,
{
    if count <= 0 {
        Seq::empty()
    } else {
        let flow = flows[count - 1];
        match flow.name {
            Some(name) => if flow.kind == DeclarationKind::Flow {
                flow_table(flows, count - 1).push(
                    (qualified(flow.namespace, name.value), count - 1),
                )
            } else {
                flow_table(flows, count - 1)
            },
            None => flow_table(flows, count - 1),
        }
    }
}

/// The first answer of two.
pub open spec fn either(first: Option<Span>, second: Option<Span>) -> Option<Span> {
    match first {
        Some(span) => Some(span),
        None => second,
    }
}

pub open spec fn name_span(name: Option<SpannedModel>) -> Option<Span> {
    match name {
        Some(name) => Some(name.span),
        None => None,
    }
}

impl QuestionModel {
    /// Whether the question is about the span.
    pub open spec fn at(self, span: Span) -> bool {
        span.source == self.source && span.start <= self.byte <= span.end
    }

    /// The answer to a question about a declaration itself.
    pub open spec fn declared(self, span: Span) -> Option<Span> {
        if self.implementation {
            None
        } else {
            Some(span)
        }
    }

    /// Where the context of the name is declared.
    pub open spec fn context(self, name: Seq<char>, home: HomeModel) -> Option<Span> {
        if self.implementation {
            None
        } else {
            match resolution(
                context_table(self.program.contexts, self.program.contexts.len() as int),
                name,
                home.namespace,
                home.uses,
            ) {
                ResolutionModel::Found(id) => name_span(self.program.contexts[id].name),
                _ => None,
            }
        }
    }

    /// The number of the flow that a call at the place means.
    pub open spec fn callee(self, callee: SpannedModel, home: Option<HomeModel>) -> Option<int> {
        if self.at(callee.span) && !callee.value.contains('.') && callee.value != "env"@
            && callee.value != "senv"@ && callee.value != "secret"@ && callee.value != "echo"@ {
            match home {
                Some(home) => match resolution(
                    flow_table(self.program.flows, self.program.flows.len() as int),
                    callee.value,
                    home.namespace,
                    home.uses,
                ) {
                    ResolutionModel::Found(id) => Some(id),
                    _ => None,
                },
                None => None,
            }
        } else {
            None
        }
    }

    pub open spec fn in_expression(
        self,
        expression: ExpressionModel,
        locals: Seq<LocalModel>,
        home: Option<HomeModel>,
    ) -> Option<Span>
        decreases expression, 0int,
    {
        self.in_kind(expression.kind, expression.span, locals, home)
    }

    /// The answer inside an expression.
    pub open spec fn in_kind(
        self,
        kind: ExpressionKindModel,
        span: Span,
        locals: Seq<LocalModel>,
        home: Option<HomeModel>,
    ) -> Option<Span>
        decreases kind, 0int,
    {
        match kind {
            ExpressionKindModel::Name(name) => if self.at(span) {
                match local_of(locals, root_of(name)) {
                    Some(local) => if self.implementation && !local.bound {
                        None
                    } else {
                        Some(local.span)
                    },
                    None => None,
                }
            } else {
                None
            },
            ExpressionKindModel::Array(values) => self.in_list(values, 0, locals, home),
            ExpressionKindModel::Object(fields) => self.in_fields(fields, 0, locals, home),
            ExpressionKindModel::Block(statements) => match home {
                Some(home) => self.in_statements(statements, 0, locals, home),
                None => None,
            },
            ExpressionKindModel::For { key, value, iterable, body } => either(
                self.in_expression(*iterable, locals, home),
                match home {
                    Some(home) => self.in_statements(body, 0, with_loop(locals, key, value), home),
                    None => None,
                },
            ),
            ExpressionKindModel::Call { callee, arguments, named_arguments, options } =>
                match self.callee(callee, home) {
                    Some(id) => name_span(self.program.flows[id].name),
                    None => either(
                        self.in_list(arguments, 0, locals, home),
                        either(
                            self.in_fields(named_arguments, 0, locals, home),
                            self.in_fields(options, 0, locals, home),
                        ),
                    ),
                },
            ExpressionKindModel::Member { value, member } => self.in_expression(
                *value,
                locals,
                home,
            ),
            ExpressionKindModel::Fail(value) => self.in_expression(*value, locals, home),
            ExpressionKindModel::Not(value) => self.in_expression(*value, locals, home),
            ExpressionKindModel::Negate(value) => self.in_expression(*value, locals, home),
            ExpressionKindModel::Index { value, index } => either(
                self.in_expression(*value, locals, home),
                self.in_expression(*index, locals, home),
            ),
            ExpressionKindModel::Binary { left, operator, right } => either(
                self.in_expression(*left, locals, home),
                self.in_expression(*right, locals, home),
            ),
            ExpressionKindModel::Within { timeout, body } => either(
                self.in_expression(*timeout, locals, home),
                self.in_expression(*body, locals, home),
            ),
            ExpressionKindModel::Retry { attempts, delay, body } => either(
                self.in_expression(*attempts, locals, home),
                either(
                    self.in_optional(delay, locals, home),
                    self.in_expression(*body, locals, home),
                ),
            ),
            ExpressionKindModel::Parallel { limit, branches } => either(
                self.in_optional(limit, locals, home),
                self.in_branches(branches, 0, locals, home),
            ),
            ExpressionKindModel::Rate { target, period, duration, limit, body } => either(
                self.in_expression(*target, locals, home),
                either(
                    self.in_expression(*period, locals, home),
                    either(
                        self.in_expression(*duration, locals, home),
                        either(
                            self.in_optional(limit, locals, home),
                            self.in_expression(*body, locals, home),
                        ),
                    ),
                ),
            ),
            ExpressionKindModel::Concurrency { limit, duration, body } => either(
                self.in_expression(*limit, locals, home),
                either(
                    self.in_expression(*duration, locals, home),
                    self.in_expression(*body, locals, home),
                ),
            ),
            _ => None,
        }
    }

    pub open spec fn in_optional(
        self,
        expression: Option<Box<ExpressionModel>>,
        locals: Seq<LocalModel>,
        home: Option<HomeModel>,
    ) -> Option<Span>
        decreases expression, 0int,
    {
        match expression {
            Some(expression) => self.in_expression(*expression, locals, home),
            None => None,
        }
    }

    pub open spec fn in_list(
        self,
        values: Seq<ExpressionModel>,
        from: int,
        locals: Seq<LocalModel>,
        home: Option<HomeModel>,
    ) -> Option<Span>
        decreases values, values.len() - from,
    {
        if from < 0 || from >= values.len() {
            None
        } else {
            either(
                self.in_expression(values[from], locals, home),
                self.in_list(values, from + 1, locals, home),
            )
        }
    }

    pub open spec fn in_fields(
        self,
        fields: Seq<ObjectFieldModel>,
        from: int,
        locals: Seq<LocalModel>,
        home: Option<HomeModel>,
    ) -> Option<Span>
        decreases fields, fields.len() - from,
    {
        if from < 0 || from >= fields.len() {
            None
        } else {
            either(
                self.in_expression(fields[from].expression, locals, home),
                self.in_fields(fields, from + 1, locals, home),
            )
        }
    }

    pub open spec fn in_branches(
        self,
        branches: Seq<ParallelBranchModel>,
        from: int,
        locals: Seq<LocalModel>,
        home: Option<HomeModel>,
    ) -> Option<Span>
        decreases branches, branches.len() - from,
    {
        if from < 0 || from >= branches.len() {
            None
        } else {
            either(
                self.in_expression(branches[from].expression, locals, home),
                self.in_branches(branches, from + 1, locals, home),
            )
        }
    }

    pub open spec fn in_if_branches(
        self,
        branches: Seq<IfBranchModel>,
        from: int,
        locals: Seq<LocalModel>,
        home: HomeModel,
    ) -> Option<Span>
        decreases branches, branches.len() - from,
    {
        if from < 0 || from >= branches.len() {
            None
        } else {
            either(
                self.in_expression(branches[from].condition, locals, Some(home)),
                either(
                    self.in_statements(branches[from].body, 0, locals, home),
                    self.in_if_branches(branches, from + 1, locals, home),
                ),
            )
        }
    }

    /// The answer inside one statement.
    pub open spec fn in_statement(
        self,
        statement: StatementModel,
        locals: Seq<LocalModel>,
        home: HomeModel,
    ) -> Answer
        decreases statement, 0int,
    {
        match statement {
            StatementModel::If { branches, else_body, span } => go_on(
                either(
                    self.in_if_branches(branches, 0, locals, home),
                    match else_body {
                        Some(body) => self.in_statements(body, 0, locals, home),
                        None => None,
                    },
                ),
            ),
            StatementModel::UseContext { name, span } => if self.at(name.span) {
                Answer::Final(self.context(name.value, home))
            } else {
                Answer::Open
            },
            StatementModel::Bind { name, expression, span } => if self.at(name.span) {
                Answer::Final(self.declared(name.span))
            } else {
                go_on(self.in_expression(expression, locals, Some(home)))
            },
            StatementModel::Return { expression, span } => go_on(
                self.in_expression(expression, locals, Some(home)),
            ),
            StatementModel::Assert { expression, message, span } => go_on(
                either(
                    self.in_expression(expression, locals, Some(home)),
                    match message {
                        Some(message) => self.in_expression(message, locals, Some(home)),
                        None => None,
                    },
                ),
            ),
            StatementModel::Expression(expression) => go_on(
                self.in_expression(expression, locals, Some(home)),
            ),
        }
    }

    /// The answer inside a row of statements, where each binding can be used
    /// behind it.
    pub open spec fn in_statements(
        self,
        statements: Seq<StatementModel>,
        from: int,
        locals: Seq<LocalModel>,
        home: HomeModel,
    ) -> Option<Span>
        decreases statements, statements.len() - from,
    {
        if from < 0 || from >= statements.len() {
            None
        } else {
            match self.in_statement(statements[from], locals, home) {
                Answer::Final(answer) => answer,
                Answer::Open => self.in_statements(
                    statements,
                    from + 1,
                    match statements[from] {
                        StatementModel::Bind { name, expression, span } => locals.push(
                            LocalModel { name: name.value, span: name.span, bound: true },
                        ),
                        _ => locals,
                    },
                    home,
                ),
            }
        }
    }

    /// The answer among the members of a context.
    pub open spec fn in_members(
        self,
        members: Seq<ContextMemberModel>,
        from: int,
        home: HomeModel,
    ) -> Answer
        decreases members.len() - from,
    {
        if from < 0 || from >= members.len() {
            Answer::Open
        } else {
            let answer = match members[from] {
                ContextMemberModel::UseContext { name, span } => if self.at(name.span) {
                    Answer::Final(self.context(name.value, home))
                } else {
                    Answer::Open
                },
                ContextMemberModel::Field(field) => go_on(
                    self.in_expression(field.expression, Seq::empty(), None),
                ),
                ContextMemberModel::Defaults { capability, fields, span } => go_on(
                    self.in_fields(fields, 0, Seq::empty(), None),
                ),
            };
            match answer {
                Answer::Final(_) => answer,
                Answer::Open => self.in_members(members, from + 1, home),
            }
        }
    }

    pub open spec fn in_contexts(self, from: int) -> Answer
        decreases self.program.contexts.len() - from,
    {
        if from < 0 || from >= self.program.contexts.len() {
            Answer::Open
        } else {
            let context = self.program.contexts[from];
            if context.name is Some && self.at(context.name->0.span) {
                Answer::Final(self.declared(context.name->0.span))
            } else {
                match self.in_members(
                    context.members,
                    0,
                    HomeModel { namespace: context.namespace, uses: context.namespace_uses },
                ) {
                    Answer::Final(answer) => Answer::Final(answer),
                    Answer::Open => self.in_contexts(from + 1),
                }
            }
        }
    }

    /// The home of the first flow in the source file from `from` on.
    pub open spec fn owner(self, source: usize, from: int) -> Option<HomeModel>
        decreases self.program.flows.len() - from,
    {
        if from < 0 || from >= self.program.flows.len() {
            None
        } else if self.program.flows[from].span.source == source {
            Some(home_of(self.program.flows[from]))
        } else {
            self.owner(source, from + 1)
        }
    }

    pub open spec fn in_file_contexts(self, from: int) -> Answer
        decreases self.program.file_contexts.len() - from,
    {
        if from < 0 || from >= self.program.file_contexts.len() {
            Answer::Open
        } else {
            match self.program.file_contexts[from] {
                FileContextUseModel::Named(name) => if self.at(name.span) {
                    Answer::Final(
                        match self.owner(name.span.source, 0) {
                            Some(home) => self.context(name.value, home),
                            None => None,
                        },
                    )
                } else {
                    self.in_file_contexts(from + 1)
                },
                FileContextUseModel::Inline(_) => self.in_file_contexts(from + 1),
            }
        }
    }

    pub open spec fn in_names(self, names: Seq<SpannedModel>, from: int) -> Option<Span>
        decreases names.len() - from,
    {
        if from < 0 || from >= names.len() {
            None
        } else if self.at(names[from].span) {
            Some(names[from].span)
        } else {
            self.in_names(names, from + 1)
        }
    }

    pub open spec fn in_flow(self, flow: MettleDeclModel) -> Option<Span> {
        match self.in_names(flow.parameters, 0) {
            Some(span) => self.declared(span),
            None => self.in_statements(
                flow.body,
                0,
                parameter_locals(flow.parameters),
                home_of(flow),
            ),
        }
    }

    pub open spec fn in_flows(self, from: int) -> Option<Span>
        decreases self.program.flows.len() - from,
    {
        if from < 0 || from >= self.program.flows.len() {
            None
        } else {
            let flow = self.program.flows[from];
            if flow.name is Some && self.at(flow.name->0.span) {
                self.declared(flow.name->0.span)
            } else {
                match self.in_flow(flow) {
                    Some(span) => Some(span),
                    None => self.in_flows(from + 1),
                }
            }
        }
    }

    /// The answer to the question.
    pub open spec fn answer(self) -> Option<Span> {
        match self.in_contexts(0) {
            Answer::Final(answer) => answer,
            Answer::Open => match self.in_file_contexts(0) {
                Answer::Final(answer) => answer,
                Answer::Open => self.in_flows(0),
            },
        }
    }
}

/// An answer that ends the search, or none so far.
#[derive(Clone, Copy)]
pub enum Answer {
    Final(Option<Span>),
    Open,
}

/// Nothing found keeps the search open.
pub open spec fn go_on(found: Option<Span>) -> Answer {
    match found {
        Some(span) => Answer::Final(Some(span)),
        None => Answer::Open,
    }
}

pub open spec fn home_of(flow: MettleDeclModel) -> HomeModel {
    HomeModel { namespace: flow.namespace, uses: flow.namespace_uses }
}

pub open spec fn parameter_locals(parameters: Seq<SpannedModel>) -> Seq<LocalModel> {
    Seq::new(
        parameters.len(),
        |i: int|
            LocalModel { name: parameters[i].value, span: parameters[i].span, bound: false },
    )
}

/// The locals with the names that a loop introduces.
pub open spec fn with_loop(
    locals: Seq<LocalModel>,
    key: Option<SpannedModel>,
    value: SpannedModel,
) -> Seq<LocalModel> {
    (match key {
        Some(key) => locals.push(LocalModel { name: key.value, span: key.span, bound: false }),
        None => locals,
    }).push(LocalModel { name: value.value, span: value.span, bound: false })
}

// ---------------------------------------------------------------------------
// Finding

struct Local {
    name: String,
    span: Span,
    bound: bool,
}

impl Local {
    spec fn model(self) -> LocalModel {
        LocalModel { name: self.name@, span: self.span, bound: self.bound }
    }
}

spec fn local_models(locals: Seq<Local>) -> Seq<LocalModel> {
    Seq::new(locals.len(), |i: int| locals[i].model())
}

fn find_local(locals: &Vec<Local>, name: &str) -> (found: Option<(Span, bool)>)
    ensures
        (match found {
            Some((span, bound)) => Some(LocalModel { name: name@, span, bound }),
            None => None,
        }) == local_of(local_models(locals@), name@),
{
    let ghost models = local_models(locals@);
    let mut at: usize = locals.len();
    proof {
        assert(models.take(at as int) =~= models);
    }
    while at > 0
        invariant
            models == local_models(locals@),
            at <= locals@.len(),
            local_of(models, name@) == local_of(models.take(at as int), name@),
        decreases at,
    {
        at -= 1;
        proof {
            assert(models.take(at + 1).drop_last() =~= models.take(at as int));
            assert(models.take(at + 1).last() == locals@[at as int].model());
        }
        if same(locals[at].name.as_str(), name) {
            return Some((locals[at].span, locals[at].bound));
        }
    }
    None
}

fn copied_locals(locals: &Vec<Local>) -> (copy: Vec<Local>)
    ensures
        local_models(copy@) == local_models(locals@),
{
    let mut copy: Vec<Local> = Vec::new();
    let mut at: usize = 0;
    while at < locals.len()
        invariant
            at <= locals@.len(),
            copy@.len() == at,
            forall|i: int| 0 <= i < at ==> (#[trigger] copy@[i]).model() == locals@[i].model(),
        decreases locals@.len() - at,
    {
        copy.push(
            Local { name: locals[at].name.clone(), span: locals[at].span, bound: locals[at].bound },
        );
        at += 1;
    }
    proof {
        assert(local_models(copy@) =~= local_models(locals@));
    }
    copy
}

fn add_local(locals: &mut Vec<Local>, name: &Spanned<String>, bound: bool)
    ensures
        local_models(final(locals)@) == local_models(old(locals)@).push(
            LocalModel { name: name.value@, span: name.span, bound },
        ),
{
    locals.push(Local { name: name.value.clone(), span: name.span, bound });
    proof {
        assert(local_models(locals@) =~= local_models(old(locals)@).push(
            LocalModel { name: name.value@, span: name.span, bound },
        ));
    }
}

fn path_root(path: &str) -> (root: String)
    ensures
        root@ == root_of(path@),
{
    let chars: Vec<char> = chars_of(path);
    let at: usize = find_char(&chars, '.', 0);
    text_between(&chars, 0, at)
}

struct Home<'a> {
    namespace: &'a String,
    uses: &'a Vec<Spanned<String>>,
}

impl<'a> Home<'a> {
    spec fn model(self) -> HomeModel {
        HomeModel { namespace: self.namespace@, uses: spanned_models(self.uses@) }
    }
}

spec fn home_model(home: Option<&Home<'_>>) -> Option<HomeModel> {
    match home {
        Some(home) => Some(home.model()),
        None => None,
    }
}

struct DefinitionFinder<'a> {
    program: &'a Program,
    source: usize,
    byte: usize,
    implementation: bool,
    contexts: Names,
    flows: Names,
}

/// Gathers the names of the contexts.
pub fn context_names(contexts: &Vec<ContextDecl>) -> (names: Names)
    ensures
        names.model() == context_table(context_models(contexts@), contexts@.len() as int),
        forall|i: int|
            0 <= i < names.entries@.len() ==> (#[trigger] names.entries@[i]).1 < contexts@.len(),
{
    let ghost models = context_models(contexts@);
    let mut names: Names = Names::new();
    let mut at: usize = 0;
    while at < contexts.len()
        invariant
            models == context_models(contexts@),
            at <= contexts@.len(),
            names.model() == context_table(models, at as int),
            forall|i: int|
                0 <= i < names.entries@.len() ==> (#[trigger] names.entries@[i]).1
                    < contexts@.len(),
        decreases contexts@.len() - at,
    {
        proof {
            assert(models[at as int] == contexts@[at as int].model());
        }
        if let Some(name) = &contexts[at].name {
            let ghost held = names;
            names.add(qualified_name(contexts[at].namespace.as_str(), name.value.as_str()), at);
            proof {
                assert(names.entries@.len() == names.model().len());
                assert forall|i: int| 0 <= i < names.entries@.len() implies (
                #[trigger] names.entries@[i]).1 < contexts@.len() by {
                    assert(names.model()[i].1 == names.entries@[i].1);
                    if i < held.entries@.len() {
                        assert(held.model()[i].1 == held.entries@[i].1);
                        assert(names.model()[i] == held.model()[i]);
                    }
                }
            }
        }
        at += 1;
    }
    names
}

/// Gathers the names by which flows can be called.
pub fn flow_names(flows: &Vec<MettleDecl>) -> (names: Names)
    ensures
        names.model() == flow_table(flow_models(flows@), flows@.len() as int),
        forall|i: int|
            0 <= i < names.entries@.len() ==> (#[trigger] names.entries@[i]).1 < flows@.len(),
{
    let ghost models = flow_models(flows@);
    let mut names: Names = Names::new();
    let mut at: usize = 0;
    while at < flows.len()
        invariant
            models == flow_models(flows@),
            at <= flows@.len(),
            names.model() == flow_table(models, at as int),
            forall|i: int|
                0 <= i < names.entries@.len() ==> (#[trigger] names.entries@[i]).1 < flows@.len(),
        decreases flows@.len() - at,
    {
        proof {
            assert(models[at as int] == flows@[at as int].model());
        }
        if let Some(name) = &flows[at].name {
            if flows[at].kind == DeclarationKind::Flow {
                let ghost held = names;
                names.add(qualified_name(flows[at].namespace.as_str(), name.value.as_str()), at);
                proof {
                    assert(names.entries@.len() == names.model().len());
                    assert forall|i: int| 0 <= i < names.entries@.len() implies (
                    #[trigger] names.entries@[i]).1 < flows@.len() by {
                        assert(names.model()[i].1 == names.entries@[i].1);
                        if i < held.entries@.len() {
                            assert(held.model()[i].1 == held.entries@[i].1);
                            assert(names.model()[i] == held.model()[i]);
                        }
                    }
                }
            }
        }
        at += 1;
    }
    names
}

impl<'a> DefinitionFinder<'a> {
    spec fn question(self) -> QuestionModel {
        QuestionModel {
            program: self.program.model(),
            source: self.source,
            byte: self.byte,
            implementation: self.implementation,
        }
    }

    spec fn valid(self) -> bool {
        let program = self.program.model();
        &&& self.contexts.model() == context_table(
            program.contexts,
            program.contexts.len() as int,
        )
        &&& self.flows.model() == flow_table(program.flows, program.flows.len() as int)
        &&& forall|i: int|
            0 <= i < self.contexts.entries@.len() ==> (#[trigger] self.contexts.entries@[i]).1
                < self.program.contexts@.len()
        &&& forall|i: int|
            0 <= i < self.flows.entries@.len() ==> (#[trigger] self.flows.entries@[i]).1
                < self.program.flows@.len()
    }

    fn at(&self, span: Span) -> (yes: bool)
        ensures
            yes == self.question().at(span),
    {
        span.source == self.source && self.byte >= span.start && self.byte <= span.end
    }

    fn declared(&self, span: Span) -> (answer: Option<Span>)
        ensures
            answer == self.question().declared(span),
    {
        if self.implementation {
            None
        } else {
            Some(span)
        }
    }

    fn resolve_context(&self, name: &str, home: &Home<'_>) -> (answer: Option<Span>)
        requires
            self.valid(),
        ensures
            answer == self.question().context(name@, home.model()),
    {
        if self.implementation {
            return None;
        }
        match resolve_visible_name(&self.contexts, name, home.namespace.as_str(), home.uses) {
            NameResolution::Found(id) => {
                proof {
                    assert(self.program.model().contexts[id as int]
                        == self.program.contexts@[id as int].model());
                }
                match &self.program.contexts[id].name {
                    Some(name) => Some(name.span),
                    None => None,
                }
            },
            _ => None,
        }
    }

    fn callee(&self, callee: &Spanned<String>, home: Option<&Home<'_>>) -> (id: Option<usize>)
        requires
            self.valid(),
        ensures
            (match id {
                Some(id) => Some(id as int),
                None => None,
            }) == self.question().callee(callee.model(), home_model(home)),
            id matches Some(id) ==> id < self.program.flows@.len(),
    {
        let name: &str = callee.value.as_str();
        if !self.at(callee.span) || has_char(name, '.') || same(name, "env") || same(name, "senv")
            || same(name, "secret") || same(name, "echo") {
            return None;
        }
        match home {
            Some(home) => match resolve_visible_name(
                &self.flows,
                name,
                home.namespace.as_str(),
                home.uses,
            ) {
                NameResolution::Found(id) => Some(id),
                _ => None,
            },
            None => None,
        }
    }

    fn find_in_expression(
        &self,
        expression: &Expression,
        locals: &Vec<Local>,
        home: Option<&Home<'_>>,
    ) -> (answer: Option<Span>)
        requires
            self.valid(),
        ensures
            answer == self.question().in_expression(
                expression.model(),
                local_models(locals@),
                home_model(home),
            ),
        decreases expression, 1int,
    {
        proof {
            reveal(ExpressionKind::model);
            assert(expression.model().kind == expression.kind.model());
        }
        match &expression.kind {
            ExpressionKind::Name(name) => {
                if self.at(expression.span) {
                    let root: String = path_root(name.as_str());
                    match find_local(locals, root.as_str()) {
                        Some((span, bound)) => if self.implementation && !bound {
                            None
                        } else {
                            Some(span)
                        },
                        None => None,
                    }
                } else {
                    None
                }
            },
            ExpressionKind::Array(values) => self.find_in_list(values, locals, home),
            ExpressionKind::Object(fields) => self.find_in_fields(fields, locals, home),
            ExpressionKind::Block(statements) => match home {
                Some(home) => self.find_in_statements(statements, locals, home),
                None => None,
            },
            ExpressionKind::For { key, value, iterable, body } => {
                let found: Option<Span> = self.find_in_expression(&**iterable, locals, home);
                if found.is_some() {
                    return found;
                }
                match home {
                    Some(home) => {
                        let mut scope: Vec<Local> = copied_locals(locals);
                        if let Some(key) = key {
                            add_local(&mut scope, key, false);
                        }
                        add_local(&mut scope, value, false);
                        self.find_in_statements(body, &scope, home)
                    },
                    None => None,
                }
            },
            ExpressionKind::Call { callee, arguments, named_arguments, options } => {
                if let Some(id) = self.callee(callee, home) {
                    proof {
                        assert(self.program.model().flows[id as int]
                            == self.program.flows@[id as int].model());
                    }
                    return match &self.program.flows[id].name {
                        Some(name) => Some(name.span),
                        None => None,
                    };
                }
                let found: Option<Span> = self.find_in_list(arguments, locals, home);
                if found.is_some() {
                    return found;
                }
                let found: Option<Span> = self.find_in_fields(named_arguments, locals, home);
                if found.is_some() {
                    return found;
                }
                self.find_in_fields(options, locals, home)
            },
            ExpressionKind::Member { value, .. } => self.find_in_expression(
                &**value,
                locals,
                home,
            ),
            ExpressionKind::Fail(value) => self.find_in_expression(&**value, locals, home),
            ExpressionKind::Not(value) => self.find_in_expression(&**value, locals, home),
            ExpressionKind::Negate(value) => self.find_in_expression(&**value, locals, home),
            ExpressionKind::Index { value, index } => {
                let found: Option<Span> = self.find_in_expression(&**value, locals, home);
                if found.is_some() {
                    return found;
                }
                self.find_in_expression(&**index, locals, home)
            },
            ExpressionKind::Binary { left, right, .. } => {
                let found: Option<Span> = self.find_in_expression(&**left, locals, home);
                if found.is_some() {
                    return found;
                }
                self.find_in_expression(&**right, locals, home)
            },
            ExpressionKind::Within { timeout, body } => {
                let found: Option<Span> = self.find_in_expression(&**timeout, locals, home);
                if found.is_some() {
                    return found;
                }
                self.find_in_expression(&**body, locals, home)
            },
            ExpressionKind::Retry { attempts, delay, body } => {
                let found: Option<Span> = self.find_in_expression(&**attempts, locals, home);
                if found.is_some() {
                    return found;
                }
                let found: Option<Span> = self.find_in_optional(delay, locals, home);
                if found.is_some() {
                    return found;
                }
                self.find_in_expression(&**body, locals, home)
            },
            ExpressionKind::Parallel { limit, branches } => {
                let found: Option<Span> = self.find_in_optional(limit, locals, home);
                if found.is_some() {
                    return found;
                }
                self.find_in_branches(branches, locals, home)
            },
            ExpressionKind::Rate { target, period, duration, limit, body } => {
                let found: Option<Span> = self.find_in_expression(&**target, locals, home);
                if found.is_some() {
                    return found;
                }
                let found: Option<Span> = self.find_in_expression(&**period, locals, home);
                if found.is_some() {
                    return found;
                }
                let found: Option<Span> = self.find_in_expression(&**duration, locals, home);
                if found.is_some() {
                    return found;
                }
                let found: Option<Span> = self.find_in_optional(limit, locals, home);
                if found.is_some() {
                    return found;
                }
                self.find_in_expression(&**body, locals, home)
            },
            ExpressionKind::Concurrency { limit, duration, body } => {
                let found: Option<Span> = self.find_in_expression(&**limit, locals, home);
                if found.is_some() {
                    return found;
                }
                let found: Option<Span> = self.find_in_expression(&**duration, locals, home);
                if found.is_some() {
                    return found;
                }
                self.find_in_expression(&**body, locals, home)
            },
            ExpressionKind::Null => None,
            ExpressionKind::Boolean(_) => None,
            ExpressionKind::Integer(_) => None,
            ExpressionKind::Float(_) => None,
            ExpressionKind::String(_) => None,
            ExpressionKind::DurationNanos(_) => None,
        }
    }

    fn find_in_optional(
        &self,
        expression: &Option<Box<Expression>>,
        locals: &Vec<Local>,
        home: Option<&Home<'_>>,
    ) -> (answer: Option<Span>)
        requires
            self.valid(),
        ensures
            answer == self.question().in_optional(
                optional_expression_model(*expression),
                local_models(locals@),
                home_model(home),
            ),
        decreases expression, 0int,
    {
        match expression {
            Some(expression) => self.find_in_expression(&**expression, locals, home),
            None => None,
        }
    }

    fn find_in_list(
        &self,
        items: &Vec<Expression>,
        locals: &Vec<Local>,
        home: Option<&Home<'_>>,
    ) -> (answer: Option<Span>)
        requires
            self.valid(),
        ensures
            answer == self.question().in_list(
                expression_models(items@),
                0,
                local_models(locals@),
                home_model(home),
            ),
        decreases items, 0int,
    {
        let ghost models = expression_models(items@);
        let ghost scope = local_models(locals@);
        let mut at: usize = 0;
        while at < items.len()
            invariant
                self.valid(),
                models == expression_models(items@),
                scope == local_models(locals@),
                at <= items@.len(),
                self.question().in_list(models, 0, scope, home_model(home))
                    == self.question().in_list(models, at as int, scope, home_model(home)),
            decreases items@.len() - at,
        {
            proof {
                assert(models[at as int] == items@[at as int].model());
            }
            let found: Option<Span> = self.find_in_expression(&items[at], locals, home);
            if found.is_some() {
                return found;
            }
            at += 1;
        }
        None
    }

    fn find_in_fields(
        &self,
        items: &Vec<ObjectField>,
        locals: &Vec<Local>,
        home: Option<&Home<'_>>,
    ) -> (answer: Option<Span>)
        requires
            self.valid(),
        ensures
            answer == self.question().in_fields(
                field_models(items@),
                0,
                local_models(locals@),
                home_model(home),
            ),
        decreases items, 0int,
    {
        let ghost models = field_models(items@);
        let ghost scope = local_models(locals@);
        let mut at: usize = 0;
        while at < items.len()
            invariant
                self.valid(),
                models == field_models(items@),
                scope == local_models(locals@),
                at <= items@.len(),
                self.question().in_fields(models, 0, scope, home_model(home))
                    == self.question().in_fields(models, at as int, scope, home_model(home)),
            decreases items@.len() - at,
        {
            proof {
                assert(models[at as int] == items@[at as int].model());
            }
            let found: Option<Span> = self.find_in_expression(&items[at].expression, locals, home);
            if found.is_some() {
                return found;
            }
            at += 1;
        }
        None
    }

    fn find_in_branches(
        &self,
        items: &Vec<ParallelBranch>,
        locals: &Vec<Local>,
        home: Option<&Home<'_>>,
    ) -> (answer: Option<Span>)
        requires
            self.valid(),
        ensures
            answer == self.question().in_branches(
                branch_models(items@),
                0,
                local_models(locals@),
                home_model(home),
            ),
        decreases items, 0int,
    {
        let ghost models = branch_models(items@);
        let ghost scope = local_models(locals@);
        let mut at: usize = 0;
        while at < items.len()
            invariant
                self.valid(),
                models == branch_models(items@),
                scope == local_models(locals@),
                at <= items@.len(),
                self.question().in_branches(models, 0, scope, home_model(home))
                    == self.question().in_branches(models, at as int, scope, home_model(home)),
            decreases items@.len() - at,
        {
            proof {
                assert(models[at as int] == items@[at as int].model());
            }
            let found: Option<Span> = self.find_in_expression(&items[at].expression, locals, home);
            if found.is_some() {
                return found;
            }
            at += 1;
        }
        None
    }

    fn find_in_if_branches(
        &self,
        items: &Vec<IfBranch>,
        locals: &Vec<Local>,
        home: &Home<'_>,
    ) -> (answer: Option<Span>)
        requires
            self.valid(),
        ensures
            answer == self.question().in_if_branches(
                if_branch_models(items@),
                0,
                local_models(locals@),
                home.model(),
            ),
        decreases items, 0int,
    {
        let ghost models = if_branch_models(items@);
        let ghost scope = local_models(locals@);
        let mut at: usize = 0;
        while at < items.len()
            invariant
                self.valid(),
                models == if_branch_models(items@),
                scope == local_models(locals@),
                at <= items@.len(),
                self.question().in_if_branches(models, 0, scope, home.model())
                    == self.question().in_if_branches(models, at as int, scope, home.model()),
            decreases items@.len() - at,
        {
            proof {
                assert(models[at as int] == items@[at as int].model());
            }
            let found: Option<Span> = self.find_in_expression(
                &items[at].condition,
                locals,
                Some(home),
            );
            if found.is_some() {
                return found;
            }
            let found: Option<Span> = self.find_in_statements(&items[at].body, locals, home);
            if found.is_some() {
                return found;
            }
            at += 1;
        }
        None
    }

    fn find_in_statement(&self, statement: &Statement, locals: &Vec<Local>, home: &Home<'_>) -> (
        answer: Answer)
        requires
            self.valid(),
        ensures
            answer == self.question().in_statement(
                statement.model(),
                local_models(locals@),
                home.model(),
            ),
        decreases statement, 0int,
    {
        match statement {
            Statement::If { branches, else_body, .. } => {
                let found: Option<Span> = self.find_in_if_branches(branches, locals, home);
                if found.is_some() {
                    return Answer::Final(found);
                }
                match else_body {
                    Some(body) => answered(self.find_in_statements(body, locals, home)),
                    None => Answer::Open,
                }
            },
            Statement::UseContext { name, .. } => {
                if self.at(name.span) {
                    Answer::Final(self.resolve_context(name.value.as_str(), home))
                } else {
                    Answer::Open
                }
            },
            Statement::Bind { name, expression, .. } => {
                if self.at(name.span) {
                    return Answer::Final(self.declared(name.span));
                }
                answered(self.find_in_expression(expression, locals, Some(home)))
            },
            Statement::Return { expression, .. } => answered(
                self.find_in_expression(expression, locals, Some(home)),
            ),
            Statement::Expression(expression) => answered(
                self.find_in_expression(expression, locals, Some(home)),
            ),
            Statement::Assert { expression, message, .. } => {
                let found: Option<Span> = self.find_in_expression(expression, locals, Some(home));
                if found.is_some() {
                    return Answer::Final(found);
                }
                match message {
                    Some(message) => answered(
                        self.find_in_expression(message, locals, Some(home)),
                    ),
                    None => Answer::Open,
                }
            },
        }
    }

    fn find_in_statements(
        &self,
        statements: &Vec<Statement>,
        locals: &Vec<Local>,
        home: &Home<'_>,
    ) -> (answer: Option<Span>)
        requires
            self.valid(),
        ensures
            answer == self.question().in_statements(
                statement_models(statements@),
                0,
                local_models(locals@),
                home.model(),
            ),
        decreases statements, 0int,
    {
        let ghost models = statement_models(statements@);
        let ghost start = local_models(locals@);
        let mut scope: Vec<Local> = copied_locals(locals);
        let mut at: usize = 0;
        while at < statements.len()
            invariant
                self.valid(),
                models == statement_models(statements@),
                start == local_models(locals@),
                at <= statements@.len(),
                self.question().in_statements(models, 0, start, home.model())
                    == self.question().in_statements(
                    models,
                    at as int,
                    local_models(scope@),
                    home.model(),
                ),
            decreases statements@.len() - at,
        {
            proof {
                assert(models[at as int] == statements@[at as int].model());
            }
            match self.find_in_statement(&statements[at], &scope, home) {
                Answer::Final(answer) => {
                    return answer;
                },
                Answer::Open => {},
            }
            if let Statement::Bind { name, .. } = &statements[at] {
                add_local(&mut scope, name, true);
            }
            at += 1;
        }
        None
    }

    fn find_in_members(&self, members: &Vec<ContextMember>, home: &Home<'_>) -> (answer: Answer)
        requires
            self.valid(),
        ensures
            answer == self.question().in_members(member_models(members@), 0, home.model()),
    {
        let ghost models = member_models(members@);
        let none: Vec<Local> = Vec::new();
        proof {
            assert(local_models(none@) =~= Seq::empty());
        }
        let mut at: usize = 0;
        while at < members.len()
            invariant
                self.valid(),
                models == member_models(members@),
                local_models(none@) == Seq::<LocalModel>::empty(),
                at <= members@.len(),
                self.question().in_members(models, 0, home.model()) == self.question().in_members(
                    models,
                    at as int,
                    home.model(),
                ),
            decreases members@.len() - at,
        {
            proof {
                assert(models[at as int] == members@[at as int].model());
            }
            match &members[at] {
                ContextMember::UseContext { name, .. } => {
                    if self.at(name.span) {
                        return Answer::Final(self.resolve_context(name.value.as_str(), home));
                    }
                },
                ContextMember::Field(field) => {
                    let found: Option<Span> = self.find_in_expression(
                        &field.expression,
                        &none,
                        None,
                    );
                    proof {
                        assert(field.model().expression == field.expression.model());
                    }
                    if found.is_some() {
                        return Answer::Final(found);
                    }
                },
                ContextMember::Defaults { fields, .. } => {
                    let found: Option<Span> = self.find_in_fields(fields, &none, None);
                    if found.is_some() {
                        return Answer::Final(found);
                    }
                },
            }
            at += 1;
        }
        Answer::Open
    }

    fn find_in_contexts(&self) -> (answer: Answer)
        requires
            self.valid(),
        ensures
            answer == self.question().in_contexts(0),
    {
        let mut at: usize = 0;
        while at < self.program.contexts.len()
            invariant
                self.valid(),
                at <= self.program.contexts@.len(),
                self.question().in_contexts(0) == self.question().in_contexts(at as int),
            decreases self.program.contexts@.len() - at,
        {
            let context: &ContextDecl = &self.program.contexts[at];
            proof {
                assert(self.program.model().contexts[at as int] == context.model());
            }
            if let Some(name) = &context.name {
                if self.at(name.span) {
                    return Answer::Final(self.declared(name.span));
                }
            }
            let home: Home<'_> = Home {
                namespace: &context.namespace,
                uses: &context.namespace_uses,
            };
            match self.find_in_members(&context.members, &home) {
                Answer::Final(answer) => {
                    return Answer::Final(answer);
                },
                Answer::Open => {},
            }
            at += 1;
        }
        Answer::Open
    }

    fn resolve_file_context(&self, name: &Spanned<String>) -> (answer: Option<Span>)
        requires
            self.valid(),
        ensures
            answer == (match self.question().owner(name.span.source, 0) {
                Some(home) => self.question().context(name.value@, home),
                None => None,
            }),
    {
        let mut at: usize = 0;
        while at < self.program.flows.len()
            invariant
                self.valid(),
                at <= self.program.flows@.len(),
                self.question().owner(name.span.source, 0) == self.question().owner(
                    name.span.source,
                    at as int,
                ),
            decreases self.program.flows@.len() - at,
        {
            let flow: &MettleDecl = &self.program.flows[at];
            proof {
                assert(self.program.model().flows[at as int] == flow.model());
            }
            if flow.span.source == name.span.source {
                let home: Home<'_> = Home {
                    namespace: &flow.namespace,
                    uses: &flow.namespace_uses,
                };
                return self.resolve_context(name.value.as_str(), &home);
            }
            at += 1;
        }
        None
    }

    fn find_in_file_contexts(&self) -> (answer: Answer)
        requires
            self.valid(),
        ensures
            answer == self.question().in_file_contexts(0),
    {
        let mut at: usize = 0;
        while at < self.program.file_contexts.len()
            invariant
                self.valid(),
                at <= self.program.file_contexts@.len(),
                self.question().in_file_contexts(0) == self.question().in_file_contexts(at as int),
            decreases self.program.file_contexts@.len() - at,
        {
            proof {
                assert(self.program.model().file_contexts[at as int]
                    == self.program.file_contexts@[at as int].model());
            }
            if let FileContextUse::Named(name) = &self.program.file_contexts[at] {
                if self.at(name.span) {
                    return Answer::Final(self.resolve_file_context(name));
                }
            }
            at += 1;
        }
        Answer::Open
    }

    fn find_in_flow(&self, flow: &MettleDecl) -> (answer: Option<Span>)
        requires
            self.valid(),
        ensures
            answer == self.question().in_flow(flow.model()),
    {
        let ghost parameters = spanned_models(flow.parameters@);
        let mut locals: Vec<Local> = Vec::new();
        let mut at: usize = 0;
        while at < flow.parameters.len()
            invariant
                self.valid(),
                parameters == spanned_models(flow.parameters@),
                at <= flow.parameters@.len(),
                locals@.len() == at,
                forall|i: int|
                    0 <= i < at ==> (#[trigger] locals@[i]).model() == parameter_locals(
                        parameters,
                    )[i],
                self.question().in_names(parameters, 0) == self.question().in_names(
                    parameters,
                    at as int,
                ),
            decreases flow.parameters@.len() - at,
        {
            proof {
                assert(parameters[at as int] == flow.parameters@[at as int].model());
            }
            if self.at(flow.parameters[at].span) {
                return self.declared(flow.parameters[at].span);
            }
            locals.push(
                Local {
                    name: flow.parameters[at].value.clone(),
                    span: flow.parameters[at].span,
                    bound: false,
                },
            );
            at += 1;
        }
        proof {
            assert(local_models(locals@) =~= parameter_locals(parameters));
        }
        let home: Home<'_> = Home { namespace: &flow.namespace, uses: &flow.namespace_uses };
        self.find_in_statements(&flow.body, &locals, &home)
    }

    fn find(&self) -> (answer: Option<Span>)
        requires
            self.valid(),
        ensures
            answer == self.question().answer(),
    {
        match self.find_in_contexts() {
            Answer::Final(answer) => {
                return answer;
            },
            Answer::Open => {},
        }
        match self.find_in_file_contexts() {
            Answer::Final(answer) => {
                return answer;
            },
            Answer::Open => {},
        }
        self.find_in_flows()
    }

    fn find_in_flows(&self) -> (answer: Option<Span>)
        requires
            self.valid(),
        ensures
            answer == self.question().in_flows(0),
    {
        let mut at: usize = 0;
        while at < self.program.flows.len()
            invariant
                self.valid(),
                at <= self.program.flows@.len(),
                self.question().in_flows(0) == self.question().in_flows(at as int),
            decreases self.program.flows@.len() - at,
        {
            let flow: &MettleDecl = &self.program.flows[at];
            proof {
                assert(self.program.model().flows[at as int] == flow.model());
            }
            if let Some(name) = &flow.name {
                if self.at(name.span) {
                    return self.declared(name.span);
                }
            }
            let found: Option<Span> = self.find_in_flow(flow);
            if found.is_some() {
                return found;
            }
            at += 1;
        }
        None
    }
}

fn answered(found: Option<Span>) -> (answer: Answer)
    ensures
        answer == go_on(found),
{
    match found {
        Some(span) => Answer::Final(Some(span)),
        None => Answer::Open,
    }
}

fn ask(program: &Program, source: usize, byte: usize, implementation: bool) -> (answer: Option<
    Span,
>)
    ensures
        answer == (QuestionModel {
            program: program.model(),
            source,
            byte,
            implementation,
        }).answer(),
{
    let contexts: Names = context_names(&program.contexts);
    let flows: Names = flow_names(&program.flows);
    let finder: DefinitionFinder<'_> = DefinitionFinder {
        program,
        source,
        byte,
        implementation,
        contexts,
        flows,
    };
    finder.find()
}

/// Finds the declaration of what stands at a byte of a source file. Names mean
/// what they mean to the compiler; ambiguous and unknown ones have no
/// declaration.
#[must_use]
pub fn find_definition(program: &Program, source: usize, byte: usize) -> (answer: Option<Span>)
    ensures
        answer == (QuestionModel {
            program: program.model(),
            source,
            byte,
            implementation: false,
        }).answer(),
{
    ask(program, source, byte, false)
}

/// Finds the flow or the binding that is behind what stands at a byte of a
/// source file. Declarations, parameters and contexts have nothing behind them.
#[must_use]
pub fn find_implementation(program: &Program, source: usize, byte: usize) -> (answer: Option<Span>)
    ensures
        answer == (QuestionModel {
            program: program.model(),
            source,
            byte,
            implementation: true,
        }).answer(),
{
    ask(program, source, byte, true)
}

} // verus!
