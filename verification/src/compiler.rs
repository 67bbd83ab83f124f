//! The compiler: programs to execution plans.

use vstd::prelude::*;
use vstd::string::*;

use crate::capability::{
    capability_models, group_models, name_models, operation_models, schema_models, type_models,
    CapabilityDescriptor, FieldSchema, OperationSchema, SchemaType,
};
use crate::definition::root_of;
use crate::duration::Duration;
use crate::lowering::{
    all_named, block_type, can_define, check_branch_names, check_exclusive, check_headers,
    check_new, check_type, counted, duration_literal, evaluate_named, evaluation, field_of, fits,
    in_backquotes, is_echo, is_path, known_name, loop_scope, lower_arguments, lower_assertion,
    lower_binary, lower_block, lower_branches, lower_call, lower_concurrency, lower_conditional,
    lower_echo, lower_expression, lower_field, lower_fields, lower_flow_call, lower_if_branches,
    lower_index, lower_inserted, lower_list, lower_loop, lower_member, lower_name, lower_named,
    lower_nested, lower_operation, lower_parallel, lower_parts, lower_rate, lower_retry, lower_row,
    lower_secret, lower_statement, lower_text, lower_unary, lower_values, lower_variable,
    lower_within, may_be, name_values, named_parameters, next_opening, none_named, operation_names,
    operation_of, optional_limit, order_named, plan, positive_literal, present_options, rate_fault,
    rate_settings, read_members, resolved, retry_delay, schema_names, slot_of, step, EdgeModel,
    EnvironmentModel, NotesModel, RowModel, RowResult, ScopeModel,
};
use crate::names::{
    is_identifier, resolve_visible_name, static_views, with_name_suggestion, NameResolution, Names,
};
use crate::placing::hand_over;
use crate::plan::{
    conditional_models, error_models, instruction_models, numbers, optional_instructions,
    optional_number, optional_plan, optional_text, part_models, plan_branch_models,
    plan_field_models, plan_models, schema_value_type, CallEvaluation, CompileError,
    ConditionalBranch, ConditionalBranchModel, Constant, Instruction, InstructionModel,
    PlanBranchModel, PlanExpression, PlanExpressionKind, PlanExpressionKindModel, PlanField,
    PlanFieldModel, PlanParallelBranch, StringPart, StringPartModel, ValueType,
};
use crate::syntax::{
    branch_models, expression_models, field_models, if_branch_models, optional_expression_model,
    optional_spanned_model, spanned_models, statement_models, BinaryOperator, Expression,
    ExpressionKind, IfBranch, MettleDecl, ObjectField, ParallelBranch, Program, Span, Spanned,
    Statement, StatementModel,
};
use crate::text::{
    chars_of, decimal, decimal_text, digit_char, find_char, has_char, is_digit, is_letter, join,
    lemma_position_of, letter_char, listed, same, split_once, text_between, views, wrapped,
};

verus! {

// ---------------------------------------------------------------------------
// Notes

/// One flow calls another.
pub struct Edge {
    pub from: usize,
    pub target: usize,
    pub span: Span,
}

impl Edge {
    pub open spec fn model(self) -> EdgeModel {
        EdgeModel { from: self.from as int, target: self.target as int, span: self.span }
    }
}

pub open spec fn edge_models(edges: Seq<Edge>) -> Seq<EdgeModel> {
    Seq::new(edges.len(), |i: int| edges[i].model())
}

/// What the compiler notices.
pub struct Notes {
    pub errors: Vec<CompileError>,
    pub edges: Vec<Edge>,
}

impl Notes {
    pub open spec fn model(self) -> NotesModel {
        NotesModel { errors: error_models(self.errors@), edges: edge_models(self.edges@) }
    }

    pub fn error(&mut self, message: String, span: Span)
        ensures
            final(self).model() == old(self).model().with(message@, span),
            final(self).edges@ == old(self).edges@,
    {
        self.errors.push(CompileError::new(message, span));
        proof {
            assert(error_models(self.errors@) =~= error_models(old(self).errors@).push(
                crate::syntax::error_of(message@, span),
            ));
        }
    }

    pub fn say(&mut self, message: &str, span: Span)
        ensures
            final(self).model() == old(self).model().with(message@, span),
            final(self).edges@ == old(self).edges@,
    {
        self.error(message.to_owned(), span);
    }

    pub fn say_unless(&mut self, fine: bool, message: &str, span: Span)
        ensures
            final(self).model() == old(self).model().unless(fine, message@, span),
            final(self).edges@ == old(self).edges@,
    {
        if !fine {
            self.say(message, span);
        }
    }

    pub fn call(&mut self, from: usize, target: usize, span: Span)
        ensures
            final(self).model() == old(self).model().calling(from as int, target as int, span),
            final(self).edges@ == old(self).edges@.push(Edge { from, target, span }),
    {
        self.edges.push(Edge { from, target, span });
        proof {
            assert(edge_models(self.edges@) =~= edge_models(old(self).edges@).push(
                EdgeModel { from: from as int, target: target as int, span },
            ));
        }
    }
}

// ---------------------------------------------------------------------------
// Scopes and environments

/// What names mean at one place.
pub struct Scope {
    pub flow: Option<usize>,
    pub test: bool,
    pub locals: Names,
    pub slots: usize,
    pub context: Option<usize>,
}

impl Scope {
    pub open spec fn model(self) -> ScopeModel {
        ScopeModel {
            flow: optional_number(self.flow),
            test: self.test,
            locals: self.locals.model(),
            slots: self.slots as int,
            context: optional_number(self.context),
        }
    }

    fn duplicate(&self) -> (copy: Scope)
        ensures
            copy.model() == self.model(),
            copy.flow == self.flow,
            copy.context == self.context,
            copy.slots == self.slots,
    {
        Scope {
            flow: self.flow,
            test: self.test,
            locals: self.locals.duplicate(),
            slots: self.slots,
            context: self.context,
        }
    }

    /// Names the next slot.
    fn define(&mut self, name: &str)
        requires
            old(self).slots < usize::MAX,
        ensures
            final(self).model() == old(self).model().naming(name@),
            final(self).flow == old(self).flow,
            final(self).context == old(self).context,
            final(self).slots == old(self).slots + 1,
    {
        let slot: usize = self.slots;
        self.locals.add(name.to_owned(), slot);
        self.slots = slot + 1;
    }

    /// Whether the name can be defined here; if not, why.
    fn check_new(&self, name: &Spanned<String>, notes: &mut Notes) -> (fine: bool)
        ensures
            fine == can_define(self.model(), name.value@),
            final(notes).model() == (if fine {
                old(notes).model()
            } else {
                check_new(self.model(), name.model(), old(notes).model())
            }),
            fine ==> self.slots < usize::MAX,
    {
        if self.locals.get(name.value.as_str()).is_some() {
            notes.error(
                wrapped("name `", name.value.as_str(), "` is already defined in this flow"),
                name.span,
            );
            return false;
        }
        if self.slots == usize::MAX {
            notes.say("too many names are defined", name.span);
            return false;
        }
        true
    }
}

/// What names mean in the program.
pub struct Lowering<'a> {
    pub program: &'a Program,
    pub capabilities: &'a Vec<CapabilityDescriptor>,
    pub capability_names: Names,
    pub contexts: Names,
    pub flows: Names,
    pub fields: Vec<Vec<String>>,
}

pub open spec fn below(names: Names, count: nat) -> bool {
    forall|i: int| 0 <= i < names.entries@.len() ==> (#[trigger] names.entries@[i]).1 < count
}

pub open spec fn text_lists(lists: Seq<Vec<String>>) -> Seq<Seq<Seq<char>>> {
    Seq::new(lists.len(), |i: int| views(lists[i]@))
}

/// The position of a name in a list.
fn slot_in(names: &Vec<String>, name: &str) -> (slot: Option<usize>)
    ensures
        optional_number(slot) == slot_of(views(names@), name@, 0),
        slot matches Some(slot) ==> slot < names@.len(),
{
    let mut at: usize = 0;
    while at < names.len()
        invariant
            at <= names@.len(),
            slot_of(views(names@), name@, 0) == slot_of(views(names@), name@, at as int),
        decreases names@.len() - at,
    {
        if same(names[at].as_str(), name) {
            return Some(at);
        }
        at += 1;
    }
    None
}

/// The position of a name in a list of fixed names.
fn fixed_slot(names: &Vec<&'static str>, name: &str) -> (slot: Option<usize>)
    ensures
        optional_number(slot) == slot_of(name_models(names@), name@, 0),
        slot matches Some(slot) ==> slot < names@.len(),
{
    let mut at: usize = 0;
    while at < names.len()
        invariant
            at <= names@.len(),
            slot_of(name_models(names@), name@, 0) == slot_of(
                name_models(names@),
                name@,
                at as int,
            ),
        decreases names@.len() - at,
    {
        if same(names[at], name) {
            return Some(at);
        }
        at += 1;
    }
    None
}

// ---------------------------------------------------------------------------
// Plan expressions

fn planned(kind: PlanExpressionKind, value_type: ValueType, span: Span) -> (expression:
    PlanExpression)
    ensures
        expression.model() == plan(kind.model(), value_type, span),
        expression.value_type == value_type,
        expression.span == span,
{
    proof {
        reveal(PlanExpressionKind::model);
    }
    PlanExpression { kind, value_type, span }
}

fn constant(value: Constant, value_type: ValueType, span: Span) -> (expression: PlanExpression)
    ensures
        expression.model() == plan(
            PlanExpressionKindModel::Constant(value.model()),
            value_type,
            span,
        ),
{
    proof {
        reveal(PlanExpressionKind::model);
    }
    planned(PlanExpressionKind::Constant(value), value_type, span)
}

fn local(slot: usize, span: Span) -> (expression: PlanExpression)
    ensures
        expression.model() == plan(
            PlanExpressionKindModel::Local(slot as int),
            ValueType::Inferred,
            span,
        ),
{
    proof {
        reveal(PlanExpressionKind::model);
    }
    planned(PlanExpressionKind::Local(slot), ValueType::Inferred, span)
}

fn context_value(slot: usize, span: Span) -> (expression: PlanExpression)
    ensures
        expression.model() == plan(
            PlanExpressionKindModel::Context(slot as int),
            ValueType::Inferred,
            span,
        ),
{
    proof {
        reveal(PlanExpressionKind::model);
    }
    planned(PlanExpressionKind::Context(slot), ValueType::Inferred, span)
}

fn environment(name: String, span: Span) -> (expression: PlanExpression)
    ensures
        expression.model() == plan(
            PlanExpressionKindModel::Environment(name@),
            ValueType::String,
            span,
        ),
{
    proof {
        reveal(PlanExpressionKind::model);
    }
    planned(PlanExpressionKind::Environment(name), ValueType::String, span)
}

fn sensitive(value: PlanExpression, span: Span) -> (expression: PlanExpression)
    ensures
        expression.model() == plan(
            PlanExpressionKindModel::Sensitive(Box::new(value.model())),
            value.value_type,
            span,
        ),
{
    proof {
        reveal(PlanExpressionKind::model);
    }
    let value_type: ValueType = value.value_type;
    planned(PlanExpressionKind::Sensitive(Box::new(value)), value_type, span)
}

fn array(values: Vec<PlanExpression>, span: Span) -> (expression: PlanExpression)
    ensures
        expression.model() == plan(
            PlanExpressionKindModel::Array(plan_models(values@)),
            ValueType::Array,
            span,
        ),
{
    proof {
        reveal(PlanExpressionKind::model);
    }
    planned(PlanExpressionKind::Array(values), ValueType::Array, span)
}

fn object(fields: Vec<PlanField>, span: Span) -> (expression: PlanExpression)
    ensures
        expression.model() == plan(
            PlanExpressionKindModel::Object(plan_field_models(fields@)),
            ValueType::Object,
            span,
        ),
{
    proof {
        reveal(PlanExpressionKind::model);
    }
    planned(PlanExpressionKind::Object(fields), ValueType::Object, span)
}

fn member_of(value: PlanExpression, member: String, span: Span) -> (expression: PlanExpression)
    ensures
        expression.model() == plan(
            PlanExpressionKindModel::Member { value: Box::new(value.model()), member: member@ },
            ValueType::Inferred,
            span,
        ),
{
    proof {
        reveal(PlanExpressionKind::model);
    }
    planned(
        PlanExpressionKind::Member { value: Box::new(value), member },
        ValueType::Inferred,
        span,
    )
}

fn index_of(value: PlanExpression, index: PlanExpression, span: Span) -> (expression:
    PlanExpression)
    ensures
        expression.model() == plan(
            PlanExpressionKindModel::Index {
                value: Box::new(value.model()),
                index: Box::new(index.model()),
            },
            ValueType::Inferred,
            span,
        ),
{
    proof {
        reveal(PlanExpressionKind::model);
    }
    planned(
        PlanExpressionKind::Index { value: Box::new(value), index: Box::new(index) },
        ValueType::Inferred,
        span,
    )
}

fn negation(value: PlanExpression, span: Span) -> (expression: PlanExpression)
    ensures
        expression.model() == plan(
            PlanExpressionKindModel::Not(Box::new(value.model())),
            ValueType::Boolean,
            span,
        ),
{
    proof {
        reveal(PlanExpressionKind::model);
    }
    planned(PlanExpressionKind::Not(Box::new(value)), ValueType::Boolean, span)
}

fn opposite(value: PlanExpression, span: Span) -> (expression: PlanExpression)
    ensures
        expression.model() == plan(
            PlanExpressionKindModel::Negate(Box::new(value.model())),
            value.value_type,
            span,
        ),
{
    proof {
        reveal(PlanExpressionKind::model);
    }
    let value_type: ValueType = value.value_type;
    planned(PlanExpressionKind::Negate(Box::new(value)), value_type, span)
}

fn failure(value: PlanExpression, span: Span) -> (expression: PlanExpression)
    ensures
        expression.model() == plan(
            PlanExpressionKindModel::Fail(Box::new(value.model())),
            ValueType::Inferred,
            span,
        ),
{
    proof {
        reveal(PlanExpressionKind::model);
    }
    planned(PlanExpressionKind::Fail(Box::new(value)), ValueType::Inferred, span)
}

fn binary(left: PlanExpression, operator: BinaryOperator, right: PlanExpression, span: Span) -> (
    expression: PlanExpression)
    ensures
        expression.model() == plan(
            PlanExpressionKindModel::Binary {
                left: Box::new(left.model()),
                operator,
                right: Box::new(right.model()),
            },
            ValueType::Boolean,
            span,
        ),
{
    proof {
        reveal(PlanExpressionKind::model);
    }
    planned(
        PlanExpressionKind::Binary { left: Box::new(left), operator, right: Box::new(right) },
        ValueType::Boolean,
        span,
    )
}

fn interpolated(parts: Vec<StringPart>, span: Span) -> (expression: PlanExpression)
    ensures
        expression.model() == plan(
            PlanExpressionKindModel::InterpolatedString(part_models(parts@)),
            ValueType::String,
            span,
        ),
{
    proof {
        reveal(PlanExpressionKind::model);
    }
    planned(PlanExpressionKind::InterpolatedString(parts), ValueType::String, span)
}

fn may(value: &PlanExpression, value_type: ValueType) -> (yes: bool)
    ensures
        yes == may_be(value.model(), value_type),
{
    value.value_type == value_type || value.value_type == ValueType::Inferred
}

// ---------------------------------------------------------------------------
// Names and texts

/// Reads the members of a path from `from` on.
fn members(value: PlanExpression, path: &Vec<char>, from: usize, span: Span) -> (read:
    PlanExpression)
    requires
        from <= path@.len(),
    ensures
        read.model() == read_members(value.model(), path@, from as int, span),
    decreases path@.len() - from,
{
    let end: usize = find_char(path, '.', from);
    proof {
        lemma_position_of(path@, '.', from as int);
    }
    let read: PlanExpression = member_of(value, text_between(path, from, end), span);
    if end >= path.len() {
        read
    } else {
        members(read, path, end + 1, span)
    }
}

/// The position of the next `${`, or the length.
fn find_opening(text: &Vec<char>, from: usize) -> (at: usize)
    requires
        from <= text@.len(),
    ensures
        at == next_opening(text@, from as int),
        from <= at <= text@.len(),
        at < text@.len() ==> at + 1 < text@.len(),
{
    let mut at: usize = from;
    while at < text.len()
        invariant
            from <= at <= text@.len(),
            next_opening(text@, from as int) == next_opening(text@, at as int),
        decreases text@.len() - at,
    {
        if text[at] == '$' && at + 1 < text.len() && text[at + 1] == '{' {
            return at;
        }
        at += 1;
    }
    at
}

pub fn is_valid_identifier(text: &str) -> (yes: bool)
    ensures
        yes == is_identifier(text@),
{
    let chars: Vec<char> = chars_of(text);
    if chars.len() == 0 || !(letter_char(chars[0]) || chars[0] == '_') {
        return false;
    }
    let mut at: usize = 1;
    while at < chars.len()
        invariant
            1 <= at <= chars@.len(),
            chars@ == text@,
            is_letter(text@[0]) || text@[0] == '_',
            forall|i: int|
                1 <= i < at ==> is_letter(#[trigger] text@[i]) || is_digit(text@[i]) || text@[i]
                    == '_',
        decreases chars@.len() - at,
    {
        let c: char = chars[at];
        if !(letter_char(c) || digit_char(c) || c == '_') {
            return false;
        }
        at += 1;
    }
    true
}

fn path_like(text: &Vec<char>, from: usize) -> (yes: bool)
    requires
        from <= text@.len(),
    ensures
        yes == is_path(text@, from as int),
    decreases text@.len() - from,
{
    let end: usize = find_char(text, '.', from);
    proof {
        lemma_position_of(text@, '.', from as int);
    }
    if !is_valid_identifier(text_between(text, from, end).as_str()) {
        false
    } else if end >= text.len() {
        true
    } else {
        path_like(text, end + 1)
    }
}

impl<'a> Lowering<'a> {
    pub open spec fn model(self) -> EnvironmentModel {
        EnvironmentModel {
            program: self.program.model(),
            capabilities: capability_models(self.capabilities@),
            capability_names: self.capability_names.model(),
            contexts: self.contexts.model(),
            flows: self.flows.model(),
            fields: text_lists(self.fields@),
        }
    }

    pub open spec fn valid(self) -> bool {
        &&& below(self.capability_names, self.capabilities@.len())
        &&& below(self.contexts, self.program.contexts@.len())
        &&& below(self.flows, self.program.flows@.len())
        &&& self.fields@.len() == self.program.contexts@.len()
    }

    /// Whether the scope speaks of flows and contexts that are there.
    pub open spec fn holds(self, scope: Scope) -> bool {
        &&& scope.flow matches Some(flow) ==> flow < self.program.flows@.len()
        &&& scope.context matches Some(context) ==> context < self.fields@.len()
    }

    fn known(&self, path: &str, span: Span, scope: &Scope) -> (value: Option<PlanExpression>)
        requires
            self.valid(),
            self.holds(*scope),
        ensures
            optional_plan(value) == known_name(self.model(), path@, span, scope.model()),
    {
        let chars: Vec<char> = chars_of(path);
        let dot: usize = find_char(&chars, '.', 0);
        proof {
            lemma_position_of(path@, '.', 0);
        }
        let root: String = text_between(&chars, 0, dot);
        proof {
            assert(root@ == root_of(path@));
        }
        let base: Option<PlanExpression> = match scope.locals.get(root.as_str()) {
            Some(slot) => Some(local(slot, span)),
            None => match scope.context {
                Some(context) => {
                    proof {
                        assert(self.model().fields[context as int] == views(
                            self.fields@[context as int]@,
                        ));
                    }
                    match slot_in(&self.fields[context], root.as_str()) {
                        Some(slot) => Some(context_value(slot, span)),
                        None => None,
                    }
                },
                None => None,
            },
        };
        match base {
            Some(value) => if dot < chars.len() {
                Some(members(value, &chars, dot + 1, span))
            } else {
                Some(value)
            },
            None => None,
        }
    }

    fn resolve_name(&self, path: &str, span: Span, scope: &Scope, notes: &mut Notes) -> (value:
        Option<PlanExpression>)
        requires
            self.valid(),
            self.holds(*scope),
        ensures
            (optional_plan(value), final(notes).model()) == lower_name(
                self.model(),
                path@,
                span,
                scope.model(),
                old(notes).model(),
            ),
    {
        match self.known(path, span, scope) {
            Some(value) => Some(value),
            None => {
                let chars: Vec<char> = chars_of(path);
                let dot: usize = find_char(&chars, '.', 0);
                proof {
                    lemma_position_of(path@, '.', 0);
                }
                let root: String = text_between(&chars, 0, dot);
                notes.error(wrapped("name `", root.as_str(), "` is not defined"), span);
                None
            },
        }
    }

    fn resolve_interpolation_name(
        &self,
        path: &str,
        span: Span,
        scope: &Scope,
        notes: &mut Notes,
    ) -> (value: Option<PlanExpression>)
        requires
            self.valid(),
            self.holds(*scope),
        ensures
            (optional_plan(value), final(notes).model()) == lower_inserted(
                self.model(),
                path@,
                span,
                scope.model(),
                old(notes).model(),
            ),
    {
        match self.known(path, span, scope) {
            Some(value) => Some(value),
            None => {
                if has_char(path, '.') {
                    notes.error(wrapped("name `", path, "` is not defined"), span);
                    None
                } else {
                    Some(environment(path.to_owned(), span))
                }
            },
        }
    }

    /// The parts of a text from `from` on, behind those in `parts`.
    fn compile_parts(
        &self,
        text: &Vec<char>,
        from: usize,
        span: Span,
        scope: &Scope,
        notes: &mut Notes,
        parts: &mut Vec<StringPart>,
    ) -> (fine: bool)
        requires
            self.valid(),
            self.holds(*scope),
            from <= text@.len(),
        ensures
            (
                if fine {
                    Some(part_models(final(parts)@))
                } else {
                    None
                },
                final(notes).model(),
            ) == lower_parts(
                self.model(),
                text@,
                from as int,
                span,
                scope.model(),
                old(notes).model(),
                part_models(old(parts)@),
            ),
        decreases text@.len() - from,
    {
        let start: usize = find_opening(text, from);
        if start >= text.len() {
            if from < text.len() {
                let rest: String = text_between(text, from, text.len());
                parts.push(StringPart::Text(rest));
                proof {
                    assert(part_models(parts@) =~= part_models(old(parts)@).push(
                        StringPartModel::Text(rest@),
                    ));
                }
            }
            return true;
        }
        let end: usize = find_char(text, '}', start + 2);
        proof {
            lemma_position_of(text@, '}', start + 2);
        }
        if end >= text.len() {
            notes.say("unterminated string interpolation", span);
            return false;
        }
        let path: String = text_between(text, start + 2, end);
        let path_chars: Vec<char> = chars_of(path.as_str());
        if !path_like(&path_chars, 0) {
            notes.say("string interpolation must contain a name or member path", span);
            return false;
        }
        let value: PlanExpression = match self.resolve_interpolation_name(
            path.as_str(),
            span,
            scope,
            notes,
        ) {
            Some(value) => value,
            None => {
                return false;
            },
        };
        if start > from {
            let before: String = text_between(text, from, start);
            parts.push(StringPart::Text(before));
            proof {
                assert(part_models(parts@) =~= part_models(old(parts)@).push(
                    StringPartModel::Text(before@),
                ));
            }
        }
        let ghost shown = part_models(parts@);
        parts.push(StringPart::Value(value));
        proof {
            assert(part_models(parts@) =~= shown.push(StringPartModel::Value(value.model())));
        }
        self.compile_parts(text, end + 1, span, scope, notes, parts)
    }

    fn compile_string(&self, text: &str, span: Span, scope: &Scope, notes: &mut Notes) -> (value:
        Option<PlanExpression>)
        requires
            self.valid(),
            self.holds(*scope),
        ensures
            (optional_plan(value), final(notes).model()) == lower_text(
                self.model(),
                text@,
                span,
                scope.model(),
                old(notes).model(),
            ),
    {
        let chars: Vec<char> = chars_of(text);
        if find_opening(&chars, 0) >= chars.len() {
            return Some(constant(Constant::String(text.to_owned()), ValueType::String, span));
        }
        let mut parts: Vec<StringPart> = Vec::new();
        proof {
            assert(part_models(parts@) =~= Seq::empty());
        }
        if self.compile_parts(&chars, 0, span, scope, notes, &mut parts) {
            Some(interpolated(parts, span))
        } else {
            None
        }
    }
}

// ---------------------------------------------------------------------------
// Schemas

fn type_fits(value: ValueType, expected: &SchemaType) -> (yes: bool)
    ensures
        yes == fits(value, expected.model()),
{
    match expected {
        SchemaType::Boolean => value == ValueType::Boolean,
        SchemaType::Bytes => value == ValueType::Bytes,
        SchemaType::Duration => value == ValueType::Duration,
        SchemaType::Integer => value == ValueType::Integer,
        SchemaType::String => value == ValueType::String,
        SchemaType::Object(_) => value == ValueType::Object,
        SchemaType::StringMap => value == ValueType::Object,
        SchemaType::Json => value != ValueType::Duration,
    }
}

fn validate_headers(fields: &Vec<PlanField>, notes: &mut Notes)
    ensures
        final(notes).model() == check_headers(plan_field_models(fields@), 0, old(notes).model()),
{
    let ghost models = plan_field_models(fields@);
    let ghost start = notes.model();
    let mut at: usize = 0;
    while at < fields.len()
        invariant
            models == plan_field_models(fields@),
            at <= fields@.len(),
            check_headers(models, 0, start) == check_headers(models, at as int, notes.model()),
        decreases fields@.len() - at,
    {
        proof {
            assert(models[at as int] == fields@[at as int].model());
            assert(models[at as int].expression == fields@[at as int].expression.model());
        }
        let fine: bool = may(&fields[at].expression, ValueType::String);
        notes.say_unless(fine, "header values must be strings", fields[at].expression.span);
        at += 1;
    }
}

fn validate_type(value: &PlanExpression, expected: &SchemaType, span: Span, notes: &mut Notes)
    ensures
        final(notes).model() == check_type(
            value.model(),
            expected.model(),
            span,
            old(notes).model(),
        ),
{
    if value.value_type == ValueType::Inferred {
        return;
    }
    if !type_fits(value.value_type, expected) {
        notes.error(
            wrapped(
                wrapped("expected ", expected.name(), ", found ").as_str(),
                value.value_type.name(),
                "",
            ),
            span,
        );
        proof {
            reveal_strlit("");
            let words = "expected "@ + expected.model().name() + ", found "@
                + value.value_type.called();
            assert(words + ""@ =~= words);
        }
        return;
    }
    proof {
        reveal(PlanExpressionKind::model);
        assert(value.model().kind == value.kind.model());
    }
    if let SchemaType::StringMap = expected {
        if let PlanExpressionKind::Object(fields) = &value.kind {
            validate_headers(fields, notes);
        }
    }
}

fn find_field(schema: &Vec<FieldSchema>, name: &str) -> (at: Option<usize>)
    ensures
        optional_number(at) == field_of(schema_models(schema@), name@, 0),
        at matches Some(at) ==> at < schema@.len(),
{
    let ghost models = schema_models(schema@);
    let mut at: usize = 0;
    while at < schema.len()
        invariant
            models == schema_models(schema@),
            at <= schema@.len(),
            field_of(models, name@, 0) == field_of(models, name@, at as int),
        decreases schema@.len() - at,
    {
        proof {
            assert(models[at as int] == schema@[at as int].model());
        }
        if same(schema[at].name, name) {
            return Some(at);
        }
        at += 1;
    }
    None
}

fn names_of_fields(schema: &Vec<FieldSchema>) -> (names: Vec<&'static str>)
    ensures
        static_views(names@) == schema_names(schema_models(schema@)),
{
    let mut names: Vec<&'static str> = Vec::new();
    let mut at: usize = 0;
    while at < schema.len()
        invariant
            at <= schema@.len(),
            names@.len() == at,
            forall|i: int| 0 <= i < at ==> (#[trigger] names@[i])@ == schema@[i].name@,
        decreases schema@.len() - at,
    {
        names.push(schema[at].name);
        at += 1;
    }
    proof {
        assert forall|i: int| 0 <= i < schema@.len() implies #[trigger] schema_models(
            schema@,
        )[i].name == schema@[i].name@ by {
            assert(schema_models(schema@)[i] == schema@[i].model());
        }
        assert(static_views(names@) =~= schema_names(schema_models(schema@)));
    }
    names
}

fn find_operation(operations: &Vec<OperationSchema>, name: &str) -> (at: Option<usize>)
    ensures
        optional_number(at) == operation_of(operation_models(operations@), name@, 0),
        at matches Some(at) ==> at < operations@.len(),
{
    let ghost models = operation_models(operations@);
    let mut at: usize = 0;
    while at < operations.len()
        invariant
            models == operation_models(operations@),
            at <= operations@.len(),
            operation_of(models, name@, 0) == operation_of(models, name@, at as int),
        decreases operations@.len() - at,
    {
        proof {
            assert(models[at as int] == operations@[at as int].model());
        }
        if same(operations[at].name, name) {
            return Some(at);
        }
        at += 1;
    }
    None
}

fn names_of_operations(operations: &Vec<OperationSchema>) -> (names: Vec<&'static str>)
    ensures
        static_views(names@) == operation_names(operation_models(operations@)),
{
    let mut names: Vec<&'static str> = Vec::new();
    let mut at: usize = 0;
    while at < operations.len()
        invariant
            at <= operations@.len(),
            names@.len() == at,
            forall|i: int| 0 <= i < at ==> (#[trigger] names@[i])@ == operations@[i].name@,
        decreases operations@.len() - at,
    {
        names.push(operations[at].name);
        at += 1;
    }
    proof {
        assert(static_views(names@) =~= operation_names(operation_models(operations@)));
    }
    names
}

// ---------------------------------------------------------------------------
// Literals of policies

fn positive_integer_literal(expression: &Expression, label: &str, notes: &mut Notes) -> (value:
    Option<usize>)
    ensures
        (value, final(notes).model()) == positive_literal(
            expression.model(),
            label@,
            old(notes).model(),
        ),
{
    proof {
        reveal(ExpressionKind::model);
        reveal_strlit("");
        assert(expression.model().kind == expression.kind.model());
        assert(label@ + " must be greater than zero"@ =~= ""@ + label@
            + " must be greater than zero"@);
        assert(label@ + " must be a positive integer literal"@ =~= ""@ + label@
            + " must be a positive integer literal"@);
    }
    match &expression.kind {
        ExpressionKind::Integer(value) => {
            let limit: u128 = usize::MAX as u128;
            if *value > 0 && *value as u128 <= limit {
                Some(*value as usize)
            } else {
                notes.error(wrapped("", label, " must be greater than zero"), expression.span);
                None
            }
        },
        _ => {
            notes.error(
                wrapped("", label, " must be a positive integer literal"),
                expression.span,
            );
            None
        },
    }
}

fn duration_of(expression: &Expression, label: &str, notes: &mut Notes) -> (value: Option<
    Duration,
>)
    ensures
        (value, final(notes).model()) == duration_literal(
            expression.model(),
            label@,
            old(notes).model(),
        ),
        value matches Some(value) ==> 0 < value.nanos <= u64::MAX,
{
    proof {
        reveal(ExpressionKind::model);
        reveal_strlit("");
        assert(expression.model().kind == expression.kind.model());
        assert(label@ + " must be greater than zero"@ =~= ""@ + label@
            + " must be greater than zero"@);
        assert(label@ + " must be a duration literal"@ =~= ""@ + label@
            + " must be a duration literal"@);
    }
    match &expression.kind {
        ExpressionKind::DurationNanos(value) => {
            if *value == 0 {
                notes.error(wrapped("", label, " must be greater than zero"), expression.span);
                None
            } else {
                Some(Duration::from_nanos(*value))
            }
        },
        _ => {
            notes.error(wrapped("", label, " must be a duration literal"), expression.span);
            None
        },
    }
}

fn limit_of(
    expression: &Option<Box<Expression>>,
    label: &str,
    usual: usize,
    notes: &mut Notes,
) -> (value: Option<usize>)
    ensures
        (value, final(notes).model()) == optional_limit(
            optional_expression_model(*expression),
            label@,
            usual,
            old(notes).model(),
        ),
{
    match expression {
        Some(expression) => positive_integer_literal(&**expression, label, notes),
        None => Some(usual),
    }
}

// ---------------------------------------------------------------------------
// Arguments of calls

fn contains_number(numbers: &Vec<usize>, number: usize) -> (yes: bool)
    ensures
        yes == crate::plan::numbers(numbers@).contains(number as int),
{
    let ghost all = crate::plan::numbers(numbers@);
    let mut at: usize = 0;
    while at < numbers.len()
        invariant
            all == crate::plan::numbers(numbers@),
            at <= numbers@.len(),
            forall|i: int| 0 <= i < at ==> #[trigger] all[i] != number,
        decreases numbers@.len() - at,
    {
        if numbers[at] == number {
            proof {
                assert(all[at as int] == number);
            }
            return true;
        }
        at += 1;
    }
    false
}

fn count_up(count: usize) -> (all: Vec<usize>)
    ensures
        numbers(all@) == counted(count as nat),
{
    let mut all: Vec<usize> = Vec::new();
    let mut at: usize = 0;
    while at < count
        invariant
            at <= count,
            all@.len() == at,
            forall|i: int| 0 <= i < at ==> #[trigger] all@[i] == i,
        decreases count - at,
    {
        all.push(at);
        at += 1;
    }
    proof {
        assert(numbers(all@) =~= counted(count as nat));
    }
    all
}

/// Appends the parameters that the named arguments stand for; whether each
/// can stand there.
fn order_arguments(
    parameters: &Vec<String>,
    named: &Vec<ObjectField>,
    callee: Option<&str>,
    order: &mut Vec<usize>,
    notes: &mut Notes,
) -> (fine: bool)
    ensures
        (numbers(final(order)@), fine, final(notes).model()) == order_named(
            views(parameters@),
            field_models(named@),
            0,
            (match callee {
                Some(callee) => Some(callee@),
                None => None,
            }),
            numbers(old(order)@),
            true,
            old(notes).model(),
        ),
{
    let ghost names = views(parameters@);
    let ghost models = field_models(named@);
    let ghost callee_view = match callee {
        Some(callee) => Some(callee@),
        None => None,
    };
    let ghost first = numbers(order@);
    let ghost start = notes.model();
    let mut fine: bool = true;
    let mut at: usize = 0;
    while at < named.len()
        invariant
            names == views(parameters@),
            models == field_models(named@),
            callee_view == (match callee {
                Some(callee) => Some(callee@),
                None => None,
            }),
            at <= named@.len(),
            order_named(names, models, 0, callee_view, first, true, start) == order_named(
                names,
                models,
                at as int,
                callee_view,
                numbers(order@),
                fine,
                notes.model(),
            ),
        decreases named@.len() - at,
    {
        proof {
            assert(models[at as int] == named@[at as int].model());
        }
        let name: &Spanned<String> = &named[at].name;
        match slot_in(parameters, name.value.as_str()) {
            None => {
                if let Some(callee) = callee {
                    notes.error(
                        wrapped(
                            wrapped("flow `", callee, "` has no parameter `").as_str(),
                            name.value.as_str(),
                            "`",
                        ),
                        name.span,
                    );
                    fine = false;
                }
            },
            Some(parameter) => {
                if contains_number(order, parameter) {
                    notes.error(
                        wrapped(
                            "argument `",
                            name.value.as_str(),
                            "` was supplied more than once",
                        ),
                        name.span,
                    );
                    fine = false;
                } else {
                    let ghost before = numbers(order@);
                    order.push(parameter);
                    proof {
                        assert(numbers(order@) =~= before.push(parameter as int));
                    }
                }
            },
        }
        at += 1;
    }
    fine
}

fn count_named(parameters: &Vec<String>, named: &Vec<ObjectField>) -> (count: usize)
    ensures
        count == named_parameters(views(parameters@), field_models(named@), 0),
        count <= named@.len(),
{
    let ghost names = views(parameters@);
    let ghost models = field_models(named@);
    let mut count: usize = 0;
    let mut at: usize = 0;
    while at < named.len()
        invariant
            names == views(parameters@),
            models == field_models(named@),
            count <= at <= named@.len(),
            named_parameters(names, models, 0) == count + named_parameters(
                names,
                models,
                at as int,
            ),
        decreases named@.len() - at,
    {
        proof {
            assert(models[at as int] == named@[at as int].model());
        }
        if slot_in(parameters, named[at].name.value.as_str()).is_some() {
            count += 1;
        }
        at += 1;
    }
    count
}

/// In which order the arguments and options of an operation are evaluated.
fn evaluation_order(
    parameters: &Vec<String>,
    positional: usize,
    named: &Vec<ObjectField>,
    options: usize,
) -> (order: Vec<CallEvaluation>)
    requires
        named@.len() + options <= usize::MAX,
    ensures
        order@ == evaluation(
            views(parameters@),
            positional as nat,
            field_models(named@),
            options as nat,
        ),
{
    let ghost names = views(parameters@);
    let ghost models = field_models(named@);
    let ghost first = Seq::new(
        positional as nat,
        |i: int| CallEvaluation::Parameter(i as usize),
    );
    let ghost second = evaluate_named(names, models, 0, 0, first);
    let mut order: Vec<CallEvaluation> = Vec::new();
    let mut at: usize = 0;
    while at < positional
        invariant
            at <= positional,
            order@.len() == at,
            forall|i: int|
                0 <= i < at ==> #[trigger] order@[i] == CallEvaluation::Parameter(i as usize),
        decreases positional - at,
    {
        order.push(CallEvaluation::Parameter(at));
        at += 1;
    }
    proof {
        assert(order@ =~= first);
    }
    let mut count: usize = 0;
    let mut at: usize = 0;
    while at < named.len()
        invariant
            names == views(parameters@),
            models == field_models(named@),
            count <= at <= named@.len(),
            second == evaluate_named(names, models, at as int, count as int, order@),
        decreases named@.len() - at,
    {
        proof {
            assert(models[at as int] == named@[at as int].model());
        }
        match slot_in(parameters, named[at].name.value.as_str()) {
            Some(parameter) => {
                order.push(CallEvaluation::Parameter(parameter));
            },
            None => {
                order.push(CallEvaluation::Option(count));
                count += 1;
            },
        }
        at += 1;
    }
    let ghost named_order = order@;
    let mut at: usize = 0;
    while at < options
        invariant
            at <= options,
            count <= named@.len(),
            named@.len() + options <= usize::MAX,
            order@.len() == named_order.len() + at,
            forall|i: int|
                0 <= i < order@.len() ==> #[trigger] order@[i] == (if i < named_order.len() {
                    named_order[i]
                } else {
                    CallEvaluation::Option((count + (i - named_order.len())) as usize)
                }),
        decreases options - at,
    {
        order.push(CallEvaluation::Option(count + at));
        at += 1;
    }
    proof {
        assert(second == (named_order, count as int));
        assert(order@ =~= named_order + Seq::new(
            options as nat,
            |i: int| CallEvaluation::Option((count + i) as usize),
        ));
    }
    order
}

fn find_present(
    group: &Vec<&'static str>,
    fields: &Vec<ObjectField>,
    present: &mut Vec<Spanned<String>>,
)
    ensures
        spanned_models(final(present)@) == present_options(
            name_models(group@),
            field_models(fields@),
            0,
            spanned_models(old(present)@),
        ),
{
    let ghost names = name_models(group@);
    let ghost models = field_models(fields@);
    let ghost start = spanned_models(present@);
    let mut at: usize = 0;
    while at < fields.len()
        invariant
            names == name_models(group@),
            models == field_models(fields@),
            at <= fields@.len(),
            present_options(names, models, 0, start) == present_options(
                names,
                models,
                at as int,
                spanned_models(present@),
            ),
        decreases fields@.len() - at,
    {
        proof {
            assert(models[at as int] == fields@[at as int].model());
        }
        let found: bool = fixed_slot(group, fields[at].name.value.as_str()).is_some();
        proof {
            lemma_slot_of(names, fields@[at as int].name.value@, 0);
        }
        if found {
            let ghost before = spanned_models(present@);
            present.push(fields[at].name.duplicate());
            proof {
                assert(spanned_models(present@) =~= before.push(models[at as int].name));
            }
        }
        at += 1;
    }
}

proof fn lemma_slot_of(names: Seq<Seq<char>>, name: Seq<char>, from: int)
    requires
        0 <= from,
    ensures
        slot_of(names, name, from) is Some <==> exists|i: int|
            from <= i < names.len() && #[trigger] names[i] == name,
        from == 0 ==> (slot_of(names, name, from) is Some <==> names.contains(name)),
    decreases names.len() - from,
{
    if from < names.len() && names[from] != name {
        lemma_slot_of(names, name, from + 1);
    }
}

fn quoted_names(names: &Vec<Spanned<String>>) -> (quoted: Vec<String>)
    ensures
        views(quoted@) == in_backquotes(spanned_models(names@)),
{
    let mut quoted: Vec<String> = Vec::new();
    let mut at: usize = 0;
    while at < names.len()
        invariant
            at <= names@.len(),
            quoted@.len() == at,
            forall|i: int|
                0 <= i < at ==> (#[trigger] quoted@[i])@ == "`"@ + names@[i].value@ + "`"@,
        decreases names@.len() - at,
    {
        quoted.push(wrapped("`", names[at].value.as_str(), "`"));
        at += 1;
    }
    proof {
        assert(views(quoted@) =~= in_backquotes(spanned_models(names@)));
    }
    quoted
}

fn validate_exclusive(
    groups: &Vec<Vec<&'static str>>,
    named: &Vec<ObjectField>,
    options: &Vec<ObjectField>,
    notes: &mut Notes,
)
    ensures
        final(notes).model() == check_exclusive(
            group_models(groups@),
            0,
            field_models(named@),
            field_models(options@),
            old(notes).model(),
        ),
{
    let ghost all = group_models(groups@);
    let ghost names = field_models(named@);
    let ghost others = field_models(options@);
    let ghost start = notes.model();
    let mut at: usize = 0;
    while at < groups.len()
        invariant
            all == group_models(groups@),
            names == field_models(named@),
            others == field_models(options@),
            at <= groups@.len(),
            check_exclusive(all, 0, names, others, start) == check_exclusive(
                all,
                at as int,
                names,
                others,
                notes.model(),
            ),
        decreases groups@.len() - at,
    {
        let mut present: Vec<Spanned<String>> = Vec::new();
        proof {
            assert(all[at as int] == name_models(groups@[at as int]@));
            assert(spanned_models(present@) =~= Seq::empty());
        }
        find_present(&groups[at], named, &mut present);
        find_present(&groups[at], options, &mut present);
        if present.len() > 1 {
            let quoted: Vec<String> = quoted_names(&present);
            let list: String = join(&quoted, " and ");
            proof {
                assert(spanned_models(present@)[1] == present@[1].model());
            }
            notes.error(
                wrapped("options ", list.as_str(), " cannot be used together"),
                present[1].span,
            );
        }
        at += 1;
    }
}

fn parameter_texts(names: &Vec<&'static str>) -> (texts: Vec<String>)
    ensures
        views(texts@) == name_models(names@),
{
    let mut texts: Vec<String> = Vec::new();
    let mut at: usize = 0;
    while at < names.len()
        invariant
            at <= names@.len(),
            texts@.len() == at,
            forall|i: int| 0 <= i < at ==> (#[trigger] texts@[i])@ == names@[i]@,
        decreases names@.len() - at,
    {
        texts.push(names[at].to_owned());
        at += 1;
    }
    proof {
        assert(views(texts@) =~= name_models(names@));
    }
    texts
}

pub fn name_texts(names: &Vec<Spanned<String>>) -> (texts: Vec<String>)
    ensures
        views(texts@) == name_values(spanned_models(names@)),
        texts@.len() == names@.len(),
{
    let mut texts: Vec<String> = Vec::new();
    let mut at: usize = 0;
    while at < names.len()
        invariant
            at <= names@.len(),
            texts@.len() == at,
            forall|i: int| 0 <= i < at ==> (#[trigger] texts@[i])@ == names@[i].value@,
        decreases names@.len() - at,
    {
        texts.push(names[at].value.clone());
        at += 1;
    }
    proof {
        assert(views(texts@) =~= name_values(spanned_models(names@)));
    }
    texts
}

// ---------------------------------------------------------------------------
// Policies, calls and blocks

fn within_kind(
    timeout: Duration,
    body: PlanExpression,
) -> (kind: PlanExpressionKind)
    ensures
        kind.model() == (PlanExpressionKindModel::Within { timeout, body: Box::new(body.model()) }),
{
    proof {
        reveal(PlanExpressionKind::model);
    }
    PlanExpressionKind::Within { timeout, body: Box::new(body) }
}

fn retry_kind(
    attempts: usize,
    delay: Duration,
    body: PlanExpression,
) -> (kind: PlanExpressionKind)
    ensures
        kind.model() == (
            PlanExpressionKindModel::Retry {
                attempts: attempts as int,
                delay,
                body: Box::new(body.model()),
            }
        ),
{
    proof {
        reveal(PlanExpressionKind::model);
    }
    PlanExpressionKind::Retry { attempts, delay, body: Box::new(body) }
}

fn rate_kind(
    target: usize,
    period: Duration,
    duration: Duration,
    limit: usize,
    body: PlanExpression,
) -> (kind: PlanExpressionKind)
    ensures
        kind.model() == (
            PlanExpressionKindModel::Rate {
                target: target as int,
                period,
                duration,
                limit: limit as int,
                body: Box::new(body.model()),
            }
        ),
{
    proof {
        reveal(PlanExpressionKind::model);
    }
    PlanExpressionKind::Rate { target, period, duration, limit, body: Box::new(body) }
}

fn concurrency_kind(
    limit: usize,
    duration: Duration,
    body: PlanExpression,
) -> (kind: PlanExpressionKind)
    ensures
        kind.model() == (
            PlanExpressionKindModel::Concurrency {
                limit: limit as int,
                duration,
                body: Box::new(body.model()),
            }
        ),
{
    proof {
        reveal(PlanExpressionKind::model);
    }
    PlanExpressionKind::Concurrency { limit, duration, body: Box::new(body) }
}

fn parallel_kind(
    limit: usize,
    branches: Vec<PlanParallelBranch>,
) -> (kind: PlanExpressionKind)
    ensures
        kind.model() == (
            PlanExpressionKindModel::Parallel {
                limit: limit as int,
                branches: plan_branch_models(branches@),
            }
        ),
{
    proof {
        reveal(PlanExpressionKind::model);
    }
    PlanExpressionKind::Parallel { limit, branches }
}

fn operation_kind(
    capability: usize,
    operation: usize,
    arguments: Vec<PlanExpression>,
    options: Vec<PlanField>,
    evaluation_order: Vec<CallEvaluation>,
) -> (kind: PlanExpressionKind)
    ensures
        kind.model() == (
            PlanExpressionKindModel::CapabilityCall {
                capability: capability as int,
                operation: operation as int,
                arguments: plan_models(arguments@),
                options: plan_field_models(options@),
                evaluation_order: evaluation_order@,
            }
        ),
{
    proof {
        reveal(PlanExpressionKind::model);
    }
    PlanExpressionKind::CapabilityCall {
        capability,
        operation,
        arguments,
        options,
        evaluation_order,
    }
}

fn call_kind(
    flow: usize,
    arguments: Vec<PlanExpression>,
    evaluation_order: Vec<usize>,
) -> (kind: PlanExpressionKind)
    ensures
        kind.model() == (
            PlanExpressionKindModel::MettleCall {
                flow: flow as int,
                arguments: plan_models(arguments@),
                evaluation_order: numbers(evaluation_order@),
            }
        ),
{
    proof {
        reveal(PlanExpressionKind::model);
    }
    PlanExpressionKind::MettleCall { flow, arguments, evaluation_order }
}

fn block_kind(
    instructions: Vec<Instruction>,
    local_count: usize,
) -> (kind: PlanExpressionKind)
    ensures
        kind.model() == (
            PlanExpressionKindModel::Block {
                instructions: instruction_models(instructions@),
                local_count: local_count as int,
            }
        ),
{
    proof {
        reveal(PlanExpressionKind::model);
    }
    PlanExpressionKind::Block { instructions, local_count }
}

fn loop_kind(
    iterable: PlanExpression,
    key_slot: Option<usize>,
    value_slot: usize,
    instructions: Vec<Instruction>,
    local_count: usize,
    produces_value: bool,
) -> (kind: PlanExpressionKind)
    ensures
        kind.model() == (
            PlanExpressionKindModel::For {
                iterable: Box::new(iterable.model()),
                key_slot: optional_number(key_slot),
                value_slot: value_slot as int,
                instructions: instruction_models(instructions@),
                local_count: local_count as int,
                produces_value,
            }
        ),
{
    proof {
        reveal(PlanExpressionKind::model);
    }
    PlanExpressionKind::For {
        iterable: Box::new(iterable),
        key_slot,
        value_slot,
        instructions,
        local_count,
        produces_value,
    }
}

pub open spec fn optional_schema(schema: Option<&Vec<FieldSchema>>) -> Option<
    Seq<crate::capability::FieldSchemaModel>,
> {
    match schema {
        Some(schema) => Some(schema_models(schema@)),
        None => None,
    }
}

fn delay_of(delay: &Option<Box<Expression>>, notes: &mut Notes) -> (value: Option<Duration>)
    ensures
        (value, final(notes).model()) == retry_delay(
            optional_expression_model(*delay),
            old(notes).model(),
        ),
{
    match delay {
        Some(delay) => duration_of(&**delay, "`retry` delay", notes),
        None => Some(Duration { nanos: 0 }),
    }
}

fn rate_literals(
    target: &Expression,
    period: &Expression,
    duration: &Expression,
    limit: &Option<Box<Expression>>,
    notes: &mut Notes,
) -> (settings: Option<(usize, Duration, Duration, usize)>)
    ensures
        (settings, final(notes).model()) == rate_settings(
            target.model(),
            period.model(),
            duration.model(),
            optional_expression_model(*limit),
            old(notes).model(),
        ),
        settings matches Some((_, period, duration, _)) ==> 0 < period.nanos && duration.nanos
            <= u64::MAX,
{
    let target: usize = match positive_integer_literal(target, "`rate` target", notes) {
        Some(target) => target,
        None => {
            return None;
        },
    };
    let period: Duration = match duration_of(period, "`rate` period", notes) {
        Some(period) => period,
        None => {
            return None;
        },
    };
    let duration: Duration = match duration_of(duration, "`rate` duration", notes) {
        Some(duration) => duration,
        None => {
            return None;
        },
    };
    match limit_of(limit, "`rate` limit", 1024, notes) {
        Some(limit) => Some((target, period, duration, limit)),
        None => None,
    }
}

fn find_rate_fault(target: usize, period: Duration, duration: Duration, limit: usize) -> (fault:
    Option<&'static str>)
    requires
        period.nanos > 0,
    ensures
        (match fault {
            Some(fault) => Some(fault@),
            None => None,
        }) == rate_fault(target, period, duration, limit),
{
    if target > 1_000_000 {
        return Some("`rate` target supports at most 1,000,000 starts per period");
    }
    if limit > 100_000 {
        return Some("`rate` limit supports at most 100,000 active iterations");
    }
    match duration.nanos.checked_mul(target as u128) {
        None => Some("`rate` configuration exceeds the supported workload size"),
        Some(product) => {
            let total: u128 = product / period.nanos;
            if total == 0 || total > 100_000_000 {
                Some("`rate` must schedule between 1 and 100,000,000 iterations")
            } else {
                None
            }
        },
    }
}

/// Whether all branches are named, and whether none is.
fn count_branches(branches: &Vec<ParallelBranch>) -> (kinds: (bool, bool))
    ensures
        kinds.0 == all_named(branch_models(branches@)),
        kinds.1 == none_named(branch_models(branches@)),
{
    let ghost models = branch_models(branches@);
    let mut named: bool = true;
    let mut unnamed: bool = true;
    let mut at: usize = 0;
    while at < branches.len()
        invariant
            models == branch_models(branches@),
            at <= branches@.len(),
            named == (forall|i: int| 0 <= i < at ==> (#[trigger] models[i]).name is Some),
            unnamed == (forall|i: int| 0 <= i < at ==> (#[trigger] models[i]).name is None),
        decreases branches@.len() - at,
    {
        proof {
            assert(models[at as int] == branches@[at as int].model());
        }
        if branches[at].name.is_some() {
            unnamed = false;
        } else {
            named = false;
        }
        at += 1;
    }
    (named, unnamed)
}

fn validate_branch_names(branches: &Vec<ParallelBranch>, notes: &mut Notes)
    ensures
        final(notes).model() == check_branch_names(
            branch_models(branches@),
            0,
            Seq::empty(),
            old(notes).model(),
        ),
{
    let ghost models = branch_models(branches@);
    let ghost start = notes.model();
    let mut seen: Vec<String> = Vec::new();
    proof {
        assert(views(seen@) =~= Seq::empty());
    }
    let mut at: usize = 0;
    while at < branches.len()
        invariant
            models == branch_models(branches@),
            at <= branches@.len(),
            check_branch_names(models, 0, Seq::empty(), start) == check_branch_names(
                models,
                at as int,
                views(seen@),
                notes.model(),
            ),
        decreases branches@.len() - at,
    {
        proof {
            assert(models[at as int] == branches@[at as int].model());
        }
        if let Some(name) = &branches[at].name {
            if listed(&seen, name.value.as_str()) {
                notes.error(
                    wrapped(
                        "parallel branch `",
                        name.value.as_str(),
                        "` is declared more than once",
                    ),
                    name.span,
                );
            }
            let ghost before = views(seen@);
            seen.push(name.value.clone());
            proof {
                assert(views(seen@) =~= before.push(name.value@));
            }
        }
        at += 1;
    }
}

fn compile_variable(
    callee: &Spanned<String>,
    arguments: &Vec<Expression>,
    named: &Vec<ObjectField>,
    options: &Vec<ObjectField>,
    span: Span,
    notes: &mut Notes,
) -> (value: Option<PlanExpression>)
    ensures
        (optional_plan(value), final(notes).model()) == lower_variable(
            callee.model(),
            expression_models(arguments@),
            field_models(named@),
            field_models(options@),
            span,
            old(notes).model(),
        ),
{
    if options.len() > 0 || named.len() > 0 || arguments.len() != 1 {
        notes.error(
            wrapped(
                "`",
                callee.value.as_str(),
                "` expects exactly one string argument and no option block",
            ),
            span,
        );
        return None;
    }
    proof {
        reveal(ExpressionKind::model);
        assert(expression_models(arguments@)[0] == arguments@[0].model());
        assert(arguments@[0].model().kind == arguments@[0].kind.model());
    }
    match &arguments[0].kind {
        ExpressionKind::String(name) => {
            let variable: PlanExpression = environment(name.clone(), span);
            if same(callee.value.as_str(), "senv") {
                Some(sensitive(variable, span))
            } else {
                Some(variable)
            }
        },
        _ => {
            notes.say("environment variable name must be a string literal", arguments[0].span);
            None
        },
    }
}

/// Tells that a call gives another number of arguments than there are
/// parameters.
fn count_message(what: &str, callee: &Spanned<String>, expected: usize, provided: u128) -> (message:
    String)
    ensures
        message@ == what@ + callee.value@ + "` expects "@ + decimal(expected as nat)
            + " argument(s), but "@ + decimal(provided as nat) + " were provided"@,
{
    wrapped(
        wrapped(
            wrapped(what, callee.value.as_str(), "` expects ").as_str(),
            decimal_text(expected as u128).as_str(),
            " argument(s), but ",
        ).as_str(),
        decimal_text(provided).as_str(),
        " were provided",
    )
}

/// The number of the context or flow that a name means.
pub fn resolve(
    names: &Names,
    what: &str,
    name: &str,
    namespace: &str,
    uses: &Vec<Spanned<String>>,
    span: Span,
    notes: &mut Notes,
) -> (id: Option<usize>)
    ensures
        (optional_number(id), final(notes).model()) == resolved(
            names.model(),
            what@,
            name@,
            namespace@,
            spanned_models(uses@),
            span,
            old(notes).model(),
        ),
        id matches Some(id) ==> exists|i: int|
            0 <= i < names.entries@.len() && (#[trigger] names.entries@[i]).1 == id,
        final(notes).edges@ == old(notes).edges@,
{
    match resolve_visible_name(names, name, namespace, uses) {
        NameResolution::Found(id) => Some(id),
        NameResolution::Missing => {
            notes.error(
                wrapped(wrapped(what, " `", name).as_str(), "` is not defined", ""),
                span,
            );
            proof {
                reveal_strlit("");
                let words = what@ + " `"@ + name@ + "` is not defined"@;
                assert(words + ""@ =~= words);
            }
            None
        },
        NameResolution::Ambiguous(candidates) => {
            let list: String = join(&candidates, ", ");
            notes.error(
                wrapped(
                    wrapped(what, " `", name).as_str(),
                    "` is ambiguous; it is provided by ",
                    list.as_str(),
                ),
                span,
            );
            None
        },
    }
}

/// Which statements stand in a row.
#[derive(Clone, Copy)]
pub struct Row {
    pub block: bool,
    pub tail: bool,
    pub top: bool,
}

impl Row {
    pub open spec fn model(self) -> RowModel {
        RowModel { block: self.block, tail: self.tail, top: self.top }
    }
}

spec fn optional_instruction(step: Option<Instruction>) -> Option<InstructionModel> {
    match step {
        Some(step) => Some(step.model()),
        None => None,
    }
}

fn type_of_block(instructions: &Vec<Instruction>) -> (value_type: ValueType)
    ensures
        value_type == block_type(instruction_models(instructions@)),
{
    if instructions.len() == 0 {
        return ValueType::Inferred;
    }
    let last: usize = instructions.len() - 1;
    proof {
        assert(instruction_models(instructions@).last() == instructions@[last as int].model());
    }
    match &instructions[last] {
        Instruction::Return(expression) => expression.value_type,
        _ => ValueType::Inferred,
    }
}

fn echoes(expression: &Expression) -> (yes: bool)
    ensures
        yes == is_echo(expression.model()),
{
    proof {
        reveal(ExpressionKind::model);
        assert(expression.model().kind == expression.kind.model());
    }
    match &expression.kind {
        ExpressionKind::Call { callee, .. } => same(callee.value.as_str(), "echo"),
        _ => false,
    }
}

fn fails(expression: &Expression) -> (yes: bool)
    ensures
        yes == (expression.model().kind is Fail),
{
    proof {
        reveal(ExpressionKind::model);
        assert(expression.model().kind == expression.kind.model());
    }
    match &expression.kind {
        ExpressionKind::Fail(_) => true,
        _ => false,
    }
}

/// The scope inside a loop.
fn enter_loop(
    scope: &Scope,
    key: &Option<Spanned<String>>,
    value: &Spanned<String>,
    notes: &mut Notes,
) -> (inner: Option<Scope>)
    ensures
        (
            match inner {
                Some(inner) => Some(inner.model()),
                None => None,
            },
            final(notes).model(),
        ) == loop_scope(
            scope.model(),
            optional_spanned_model(*key),
            value.model(),
            old(notes).model(),
        ),
        inner matches Some(inner) ==> inner.flow == scope.flow && inner.context == scope.context
            && inner.slots > 0,
{
    let mut inner: Scope = scope.duplicate();
    if let Some(key) = key {
        if !inner.check_new(key, notes) {
            return None;
        }
        inner.define(key.value.as_str());
    }
    if !inner.check_new(value, notes) {
        return None;
    }
    inner.define(value.value.as_str());
    Some(inner)
}

impl<'a> Lowering<'a> {
    pub fn compile_expression(&self, expression: &Expression, scope: &Scope, notes: &mut Notes) -> (value: Option<
        PlanExpression,
    >)
        requires
            self.valid(),
            self.holds(*scope),
        ensures
            (optional_plan(value), final(notes).model()) == lower_expression(
                self.model(),
                expression.model(),
                scope.model(),
                old(notes).model(),
            ),
        decreases expression, 2int,
    {
        proof {
            reveal(ExpressionKind::model);
            assert(expression.model().kind == expression.kind.model());
        }
        let span: Span = expression.span;
        match &expression.kind {
            ExpressionKind::Null => Some(constant(Constant::Null, ValueType::Null, span)),
            ExpressionKind::Boolean(value) => Some(
                constant(Constant::Boolean(*value), ValueType::Boolean, span),
            ),
            ExpressionKind::Integer(value) => Some(
                constant(Constant::Integer(*value), ValueType::Integer, span),
            ),
            ExpressionKind::Float(value) => Some(
                constant(Constant::Float(*value), ValueType::Float, span),
            ),
            ExpressionKind::DurationNanos(value) => Some(
                constant(Constant::DurationNanos(*value), ValueType::Duration, span),
            ),
            ExpressionKind::String(text) => self.compile_string(text.as_str(), span, scope, notes),
            ExpressionKind::Name(path) => self.resolve_name(path.as_str(), span, scope, notes),
            ExpressionKind::Array(values) => {
                let mut done: Vec<PlanExpression> = Vec::new();
                proof {
                    assert(plan_models(done@) =~= Seq::empty());
                }
                self.compile_list(values, scope, notes, &mut done);
                Some(array(done, span))
            },
            ExpressionKind::Object(fields) => {
                let mut done: Vec<PlanField> = Vec::new();
                let mut seen: Vec<String> = Vec::new();
                let skip: Vec<String> = Vec::new();
                proof {
                    assert(plan_field_models(done@) =~= Seq::empty());
                    assert(views(seen@) =~= Seq::empty());
                    assert(views(skip@) =~= Seq::empty());
                }
                self.compile_fields(fields, scope, None, &skip, notes, &mut seen, &mut done);
                Some(object(done, span))
            },
            ExpressionKind::Block(_) => self.compile_block(expression, scope, notes),
            ExpressionKind::For { .. } => self.compile_loop(expression, scope, notes),
            ExpressionKind::Member { .. } => self.compile_member(expression, scope, notes),
            ExpressionKind::Index { .. } => self.compile_index(expression, scope, notes),
            ExpressionKind::Not(_) => self.compile_unary(expression, scope, notes),
            ExpressionKind::Negate(_) => self.compile_unary(expression, scope, notes),
            ExpressionKind::Fail(_) => self.compile_unary(expression, scope, notes),
            ExpressionKind::Binary { .. } => self.compile_binary(expression, scope, notes),
            ExpressionKind::Call { .. } => self.compile_call(expression, scope, notes),
            ExpressionKind::Within { .. } => self.compile_within(expression, scope, notes),
            ExpressionKind::Retry { .. } => self.compile_retry(expression, scope, notes),
            ExpressionKind::Parallel { .. } => self.compile_parallel(expression, scope, notes),
            ExpressionKind::Rate { .. } => self.compile_rate(expression, scope, notes),
            ExpressionKind::Concurrency { .. } => self.compile_concurrency(
                expression,
                scope,
                notes,
            ),
        }
    }

    fn compile_list(
        &self,
        values: &Vec<Expression>,
        scope: &Scope,
        notes: &mut Notes,
        done: &mut Vec<PlanExpression>,
    )
        requires
            self.valid(),
            self.holds(*scope),
        ensures
            (plan_models(final(done)@), final(notes).model()) == lower_list(
                self.model(),
                expression_models(values@),
                0,
                scope.model(),
                old(notes).model(),
                plan_models(old(done)@),
            ),
        decreases values, 0int,
    {
        let ghost models = expression_models(values@);
        let ghost start = notes.model();
        let ghost first = plan_models(done@);
        let mut at: usize = 0;
        while at < values.len()
            invariant
                self.valid(),
                self.holds(*scope),
                models == expression_models(values@),
                at <= values@.len(),
                lower_list(self.model(), models, 0, scope.model(), start, first) == lower_list(
                    self.model(),
                    models,
                    at as int,
                    scope.model(),
                    notes.model(),
                    plan_models(done@),
                ),
            decreases values@.len() - at,
        {
            proof {
                assert(models[at as int] == values@[at as int].model());
            }
            if let Some(value) = self.compile_expression(&values[at], scope, notes) {
                let ghost before = plan_models(done@);
                done.push(value);
                proof {
                    assert(plan_models(done@) =~= before.push(value.model()));
                }
            }
            at += 1;
        }
    }

    fn compile_values(
        &self,
        fields: &Vec<ObjectField>,
        scope: &Scope,
        notes: &mut Notes,
        done: &mut Vec<PlanExpression>,
    )
        requires
            self.valid(),
            self.holds(*scope),
        ensures
            (plan_models(final(done)@), final(notes).model()) == lower_values(
                self.model(),
                field_models(fields@),
                0,
                scope.model(),
                old(notes).model(),
                plan_models(old(done)@),
            ),
        decreases fields, 0int,
    {
        let ghost models = field_models(fields@);
        let ghost start = notes.model();
        let ghost first = plan_models(done@);
        let mut at: usize = 0;
        while at < fields.len()
            invariant
                self.valid(),
                self.holds(*scope),
                models == field_models(fields@),
                at <= fields@.len(),
                lower_values(self.model(), models, 0, scope.model(), start, first) == lower_values(
                    self.model(),
                    models,
                    at as int,
                    scope.model(),
                    notes.model(),
                    plan_models(done@),
                ),
            decreases fields@.len() - at,
        {
            proof {
                assert(models[at as int] == fields@[at as int].model());
            }
            if let Some(value) = self.compile_expression(&fields[at].expression, scope, notes) {
                let ghost before = plan_models(done@);
                done.push(value);
                proof {
                    assert(plan_models(done@) =~= before.push(value.model()));
                }
            }
            at += 1;
        }
    }

    /// Compiles fields behind those in `done`; with a schema, they have to fit
    /// it. Fields named in `skip` are left out.
    pub fn compile_fields(
        &self,
        fields: &Vec<ObjectField>,
        scope: &Scope,
        schema: Option<&Vec<FieldSchema>>,
        skip: &Vec<String>,
        notes: &mut Notes,
        seen: &mut Vec<String>,
        done: &mut Vec<PlanField>,
    )
        requires
            self.valid(),
            self.holds(*scope),
        ensures
            (plan_field_models(final(done)@), views(final(seen)@), final(notes).model())
                == lower_fields(
                self.model(),
                field_models(fields@),
                0,
                scope.model(),
                optional_schema(schema),
                views(skip@),
                old(notes).model(),
                views(old(seen)@),
                plan_field_models(old(done)@),
            ),
        decreases fields, 0int,
    {
        let ghost models = field_models(fields@);
        let ghost start = notes.model();
        let ghost first = plan_field_models(done@);
        let ghost first_seen = views(seen@);
        let ghost shape = optional_schema(schema);
        let ghost left = views(skip@);
        let mut at: usize = 0;
        while at < fields.len()
            invariant
                self.valid(),
                self.holds(*scope),
                models == field_models(fields@),
                shape == optional_schema(schema),
                left == views(skip@),
                at <= fields@.len(),
                lower_fields(
                    self.model(),
                    models,
                    0,
                    scope.model(),
                    shape,
                    left,
                    start,
                    first_seen,
                    first,
                ) == lower_fields(
                    self.model(),
                    models,
                    at as int,
                    scope.model(),
                    shape,
                    left,
                    notes.model(),
                    views(seen@),
                    plan_field_models(done@),
                ),
            decreases fields@.len() - at,
        {
            proof {
                assert(models[at as int] == fields@[at as int].model());
            }
            let name: &Spanned<String> = &fields[at].name;
            if slot_in(skip, name.value.as_str()).is_none() {
                if listed(seen, name.value.as_str()) {
                    notes.error(
                        wrapped("field `", name.value.as_str(), "` is declared more than once"),
                        name.span,
                    );
                } else {
                    let lowered: Option<PlanExpression> = self.compile_field(
                        &fields[at],
                        scope,
                        schema,
                        notes,
                    );
                    let ghost before_seen = views(seen@);
                    seen.push(name.value.clone());
                    proof {
                        assert(views(seen@) =~= before_seen.push(name.value@));
                    }
                    if let Some(expression) = lowered {
                        let ghost before = plan_field_models(done@);
                        let text: String = name.value.clone();
                        done.push(PlanField { name: text, expression });
                        proof {
                            assert(plan_field_models(done@) =~= before.push(
                                PlanFieldModel {
                                    name: name.value@,
                                    expression: expression.model(),
                                },
                            ));
                        }
                    }
                }
            }
            at += 1;
        }
    }

    fn compile_field(
        &self,
        field: &ObjectField,
        scope: &Scope,
        schema: Option<&Vec<FieldSchema>>,
        notes: &mut Notes,
    ) -> (value: Option<PlanExpression>)
        requires
            self.valid(),
            self.holds(*scope),
        ensures
            (optional_plan(value), final(notes).model()) == lower_field(
                self.model(),
                field.model(),
                scope.model(),
                optional_schema(schema),
                old(notes).model(),
            ),
        decreases field, 1int,
    {
        proof {
            assert(field.model().expression == field.expression.model());
        }
        let name: &Spanned<String> = &field.name;
        match schema {
            None => self.compile_expression(&field.expression, scope, notes),
            Some(schema) => match find_field(schema, name.value.as_str()) {
                None => {
                    let names: Vec<&'static str> = names_of_fields(schema);
                    let message: String = with_name_suggestion(
                        wrapped("unknown option `", name.value.as_str(), "`"),
                        name.value.as_str(),
                        &names,
                    );
                    notes.error(message, name.span);
                    self.compile_expression(&field.expression, scope, notes)
                },
                Some(at) => {
                    proof {
                        assert(schema_models(schema@)[at as int] == schema@[at as int].model());
                        assert(schema_models(schema@)[at as int].value_type
                            == schema@[at as int].value_type.model());
                    }
                    match self.compile_nested(field, scope, &schema[at].value_type, notes) {
                        Some(value) => {
                            validate_type(
                                &value,
                                &schema[at].value_type,
                                field.expression.span,
                                notes,
                            );
                            Some(value)
                        },
                        None => None,
                    }
                },
            },
        }
    }

    fn compile_nested(
        &self,
        field: &ObjectField,
        scope: &Scope,
        value_type: &SchemaType,
        notes: &mut Notes,
    ) -> (value: Option<PlanExpression>)
        requires
            self.valid(),
            self.holds(*scope),
        ensures
            (optional_plan(value), final(notes).model()) == lower_nested(
                self.model(),
                field.model(),
                scope.model(),
                value_type.model(),
                old(notes).model(),
            ),
        decreases field, 0int,
    {
        proof {
            reveal(ExpressionKind::model);
            assert(field.model().expression == field.expression.model());
            assert(field.expression.model().kind == field.expression.kind.model());
        }
        match value_type {
            SchemaType::Object(nested) => {
                if let ExpressionKind::Object(source) = &field.expression.kind {
                    let mut done: Vec<PlanField> = Vec::new();
                    let mut seen: Vec<String> = Vec::new();
                    let skip: Vec<String> = Vec::new();
                    proof {
                        assert(plan_field_models(done@) =~= Seq::empty());
                        assert(views(seen@) =~= Seq::empty());
                        assert(views(skip@) =~= Seq::empty());
                    }
                    self.compile_fields(
                        source,
                        scope,
                        Some(nested),
                        &skip,
                        notes,
                        &mut seen,
                        &mut done,
                    );
                    return Some(object(done, field.expression.span));
                }
                self.compile_expression(&field.expression, scope, notes)
            },
            _ => self.compile_expression(&field.expression, scope, notes),
        }
    }

    fn compile_member(&self, expression: &Expression, scope: &Scope, notes: &mut Notes) -> (value: Option<
        PlanExpression,
    >)
        requires
            self.valid(),
            self.holds(*scope),
        ensures
            (optional_plan(value), final(notes).model()) == lower_member(
                self.model(),
                expression.model(),
                scope.model(),
                old(notes).model(),
            ),
        decreases expression, 1int,
    {
        proof {
            reveal(ExpressionKind::model);
            assert(expression.model().kind == expression.kind.model());
        }
        match &expression.kind {
            ExpressionKind::Member { value, member } => {
                let value: PlanExpression = match self.compile_expression(&**value, scope, notes) {
                    Some(value) => value,
                    None => {
                        return None;
                    },
                };
                Some(member_of(value, member.value.clone(), expression.span))
            },
            _ => None,
        }
    }

    fn compile_index(&self, expression: &Expression, scope: &Scope, notes: &mut Notes) -> (value: Option<
        PlanExpression,
    >)
        requires
            self.valid(),
            self.holds(*scope),
        ensures
            (optional_plan(value), final(notes).model()) == lower_index(
                self.model(),
                expression.model(),
                scope.model(),
                old(notes).model(),
            ),
        decreases expression, 1int,
    {
        proof {
            reveal(ExpressionKind::model);
            assert(expression.model().kind == expression.kind.model());
        }
        match &expression.kind {
            ExpressionKind::Index { value, index } => {
                let value: PlanExpression = match self.compile_expression(&**value, scope, notes) {
                    Some(value) => value,
                    None => {
                        return None;
                    },
                };
                let index: PlanExpression = match self.compile_expression(&**index, scope, notes) {
                    Some(index) => index,
                    None => {
                        return None;
                    },
                };
                let fine: bool = may(&index, ValueType::String) || index.value_type
                    == ValueType::Integer;
                notes.say_unless(
                    fine,
                    "index must be a string key or integer position",
                    index.span,
                );
                Some(index_of(value, index, expression.span))
            },
            _ => None,
        }
    }

    fn compile_unary(&self, expression: &Expression, scope: &Scope, notes: &mut Notes) -> (value: Option<
        PlanExpression,
    >)
        requires
            self.valid(),
            self.holds(*scope),
        ensures
            (optional_plan(value), final(notes).model()) == lower_unary(
                self.model(),
                expression.model(),
                scope.model(),
                old(notes).model(),
            ),
        decreases expression, 1int,
    {
        proof {
            reveal(ExpressionKind::model);
            assert(expression.model().kind == expression.kind.model());
        }
        let span: Span = expression.span;
        match &expression.kind {
            ExpressionKind::Not(value) => {
                let value: PlanExpression = match self.compile_expression(&**value, scope, notes) {
                    Some(value) => value,
                    None => {
                        return None;
                    },
                };
                let fine: bool = may(&value, ValueType::Boolean);
                notes.say_unless(fine, "`not` requires a boolean", value.span);
                Some(negation(value, span))
            },
            ExpressionKind::Negate(value) => {
                let value: PlanExpression = match self.compile_expression(&**value, scope, notes) {
                    Some(value) => value,
                    None => {
                        return None;
                    },
                };
                let fine: bool = may(&value, ValueType::Integer) || value.value_type
                    == ValueType::Float;
                notes.say_unless(fine, "`-` requires a number", value.span);
                Some(opposite(value, span))
            },
            ExpressionKind::Fail(value) => {
                let value: PlanExpression = match self.compile_expression(&**value, scope, notes) {
                    Some(value) => value,
                    None => {
                        return None;
                    },
                };
                let fine: bool = may(&value, ValueType::String);
                notes.say_unless(fine, "fail message must be a string", value.span);
                Some(failure(value, span))
            },
            _ => None,
        }
    }

    fn compile_binary(&self, expression: &Expression, scope: &Scope, notes: &mut Notes) -> (value: Option<
        PlanExpression,
    >)
        requires
            self.valid(),
            self.holds(*scope),
        ensures
            (optional_plan(value), final(notes).model()) == lower_binary(
                self.model(),
                expression.model(),
                scope.model(),
                old(notes).model(),
            ),
        decreases expression, 1int,
    {
        proof {
            reveal(ExpressionKind::model);
            assert(expression.model().kind == expression.kind.model());
        }
        match &expression.kind {
            ExpressionKind::Binary { left, operator, right } => {
                let left: PlanExpression = match self.compile_expression(&**left, scope, notes) {
                    Some(left) => left,
                    None => {
                        return None;
                    },
                };
                let right: PlanExpression = match self.compile_expression(&**right, scope, notes) {
                    Some(right) => right,
                    None => {
                        return None;
                    },
                };
                let logical: bool = *operator == BinaryOperator::And || *operator
                    == BinaryOperator::Or;
                let left_fine: bool = !logical || may(&left, ValueType::Boolean);
                let right_fine: bool = !logical || may(&right, ValueType::Boolean);
                notes.say_unless(left_fine, "logical operators require booleans", left.span);
                notes.say_unless(right_fine, "logical operators require booleans", right.span);
                Some(binary(left, *operator, right, expression.span))
            },
            _ => None,
        }
    }

    fn compile_within(&self, expression: &Expression, scope: &Scope, notes: &mut Notes) -> (value: Option<
        PlanExpression,
    >)
        requires
            self.valid(),
            self.holds(*scope),
        ensures
            (optional_plan(value), final(notes).model()) == lower_within(
                self.model(),
                expression.model(),
                scope.model(),
                old(notes).model(),
            ),
        decreases expression, 1int,
    {
        proof {
            reveal(ExpressionKind::model);
            assert(expression.model().kind == expression.kind.model());
        }
        match &expression.kind {
            ExpressionKind::Within { timeout, body } => {
                let timeout: Duration = match duration_of(&**timeout, "`within` timeout", notes) {
                    Some(timeout) => timeout,
                    None => {
                        return None;
                    },
                };
                let body: PlanExpression = match self.compile_expression(&**body, scope, notes) {
                    Some(body) => body,
                    None => {
                        return None;
                    },
                };
                let value_type: ValueType = body.value_type;
                Some(
                    planned(within_kind(timeout, body), value_type, expression.span),
                )
            },
            _ => None,
        }
    }

    fn compile_retry(&self, expression: &Expression, scope: &Scope, notes: &mut Notes) -> (value: Option<
        PlanExpression,
    >)
        requires
            self.valid(),
            self.holds(*scope),
        ensures
            (optional_plan(value), final(notes).model()) == lower_retry(
                self.model(),
                expression.model(),
                scope.model(),
                old(notes).model(),
            ),
        decreases expression, 1int,
    {
        proof {
            reveal(ExpressionKind::model);
            assert(expression.model().kind == expression.kind.model());
        }
        match &expression.kind {
            ExpressionKind::Retry { attempts, delay, body } => {
                let attempts: usize = match positive_integer_literal(&**attempts, "`retry` attempts", notes) {
                    Some(attempts) => attempts,
                    None => {
                        return None;
                    },
                };
                let delay: Duration = match delay_of(delay, notes) {
                    Some(delay) => delay,
                    None => {
                        return None;
                    },
                };
                let body: PlanExpression = match self.compile_expression(&**body, scope, notes) {
                    Some(body) => body,
                    None => {
                        return None;
                    },
                };
                let value_type: ValueType = body.value_type;
                Some(
                    planned(retry_kind(attempts, delay, body), value_type, expression.span),
                )
            },
            _ => None,
        }
    }

    fn compile_rate(&self, expression: &Expression, scope: &Scope, notes: &mut Notes) -> (value: Option<
        PlanExpression,
    >)
        requires
            self.valid(),
            self.holds(*scope),
        ensures
            (optional_plan(value), final(notes).model()) == lower_rate(
                self.model(),
                expression.model(),
                scope.model(),
                old(notes).model(),
            ),
        decreases expression, 1int,
    {
        proof {
            reveal(ExpressionKind::model);
            assert(expression.model().kind == expression.kind.model());
        }
        match &expression.kind {
            ExpressionKind::Rate { target, period, duration, limit, body } => {
                let (target, period, duration, limit): (usize, Duration, Duration, usize) =
                    match rate_literals(&**target, &**period, &**duration, limit, notes) {
                    Some(settings) => settings,
                    None => {
                        return None;
                    },
                };
                if let Some(message) = find_rate_fault(target, period, duration, limit) {
                    notes.say(message, expression.span);
                    return None;
                }
                let body: PlanExpression = match self.compile_expression(&**body, scope, notes) {
                    Some(body) => body,
                    None => {
                        return None;
                    },
                };
                Some(
                    planned(
                        rate_kind(target, period, duration, limit, body),
                        ValueType::Object,
                        expression.span,
                    ),
                )
            },
            _ => None,
        }
    }

    fn compile_concurrency(&self, expression: &Expression, scope: &Scope, notes: &mut Notes) -> (value: Option<
        PlanExpression,
    >)
        requires
            self.valid(),
            self.holds(*scope),
        ensures
            (optional_plan(value), final(notes).model()) == lower_concurrency(
                self.model(),
                expression.model(),
                scope.model(),
                old(notes).model(),
            ),
        decreases expression, 1int,
    {
        proof {
            reveal(ExpressionKind::model);
            assert(expression.model().kind == expression.kind.model());
        }
        match &expression.kind {
            ExpressionKind::Concurrency { limit, duration, body } => {
                let limit: usize = match positive_integer_literal(&**limit, "`concurrency` limit", notes) {
                    Some(limit) => limit,
                    None => {
                        return None;
                    },
                };
                let duration: Duration = match duration_of(&**duration, "`concurrency` duration", notes) {
                    Some(duration) => duration,
                    None => {
                        return None;
                    },
                };
                if limit > 100_000 {
                    notes.say(
                        "`concurrency` supports at most 100,000 active iterations",
                        expression.span,
                    );
                    return None;
                }
                let body: PlanExpression = match self.compile_expression(&**body, scope, notes) {
                    Some(body) => body,
                    None => {
                        return None;
                    },
                };
                Some(
                    planned(
                        concurrency_kind(limit, duration, body),
                        ValueType::Object,
                        expression.span,
                    ),
                )
            },
            _ => None,
        }
    }

    fn compile_parallel(&self, expression: &Expression, scope: &Scope, notes: &mut Notes) -> (value: Option<
        PlanExpression,
    >)
        requires
            self.valid(),
            self.holds(*scope),
        ensures
            (optional_plan(value), final(notes).model()) == lower_parallel(
                self.model(),
                expression.model(),
                scope.model(),
                old(notes).model(),
            ),
        decreases expression, 1int,
    {
        proof {
            reveal(ExpressionKind::model);
            assert(expression.model().kind == expression.kind.model());
        }
        let span: Span = expression.span;
        match &expression.kind {
            ExpressionKind::Parallel { limit, branches } => {
                if branches.len() == 0 {
                    notes.say("`parallel` requires at least one branch", span);
                    return None;
                }
                if branches.len() > 1024 {
                    notes.say("`parallel` supports at most 1024 branches", span);
                    return None;
                }
                let limit: usize = match limit_of(
                    limit,
                    "`parallel` limit",
                    branches.len(),
                    notes,
                ) {
                    Some(limit) => limit,
                    None => {
                        return None;
                    },
                };
                let (named, unnamed): (bool, bool) = count_branches(branches);
                notes.say_unless(
                    named || unnamed,
                    "parallel branches must be all named or all unnamed",
                    span,
                );
                validate_branch_names(branches, notes);
                let items: Vec<PlanParallelBranch> = self.compile_branches(branches, scope, notes);
                let limit: usize = if limit < branches.len() {
                    limit
                } else {
                    branches.len()
                };
                Some(
                    planned(
                        parallel_kind(limit, items),
                        if named {
                            ValueType::Object
                        } else {
                            ValueType::Array
                        },
                        span,
                    ),
                )
            },
            _ => None,
        }
    }

    fn compile_branches(
        &self,
        branches: &Vec<ParallelBranch>,
        scope: &Scope,
        notes: &mut Notes,
    ) -> (done: Vec<PlanParallelBranch>)
        requires
            self.valid(),
            self.holds(*scope),
        ensures
            (plan_branch_models(done@), final(notes).model()) == lower_branches(
                self.model(),
                branch_models(branches@),
                0,
                scope.model(),
                old(notes).model(),
                Seq::empty(),
            ),
        decreases branches, 0int,
    {
        let ghost models = branch_models(branches@);
        let ghost start = notes.model();
        let mut done: Vec<PlanParallelBranch> = Vec::new();
        proof {
            assert(plan_branch_models(done@) =~= Seq::empty());
        }
        let mut at: usize = 0;
        while at < branches.len()
            invariant
                self.valid(),
                self.holds(*scope),
                models == branch_models(branches@),
                at <= branches@.len(),
                lower_branches(self.model(), models, 0, scope.model(), start, Seq::empty())
                    == lower_branches(
                    self.model(),
                    models,
                    at as int,
                    scope.model(),
                    notes.model(),
                    plan_branch_models(done@),
                ),
            decreases branches@.len() - at,
        {
            proof {
                assert(models[at as int] == branches@[at as int].model());
                assert(models[at as int].expression == branches@[at as int].expression.model());
            }
            if let Some(expression) = self.compile_expression(
                &branches[at].expression,
                scope,
                notes,
            ) {
                let ghost before = plan_branch_models(done@);
                let name: Option<String> = match &branches[at].name {
                    Some(name) => Some(name.value.clone()),
                    None => None,
                };
                done.push(PlanParallelBranch { name, expression });
                proof {
                    assert(plan_branch_models(done@) =~= before.push(
                        PlanBranchModel {
                            name: optional_text(name),
                            expression: expression.model(),
                        },
                    ));
                }
            }
            at += 1;
        }
        done
    }

    pub fn compile_call(
        &self,
        expression: &Expression,
        scope: &Scope,
        notes: &mut Notes,
    ) -> (value: Option<PlanExpression>)
        requires
            self.valid(),
            self.holds(*scope),
        ensures
            (optional_plan(value), final(notes).model()) == lower_call(
                self.model(),
                expression.model(),
                scope.model(),
                old(notes).model(),
            ),
        decreases expression, 1int,
    {
        proof {
            reveal(ExpressionKind::model);
            assert(expression.model().kind == expression.kind.model());
        }
        match &expression.kind {
            ExpressionKind::Call { callee, arguments, named_arguments, options } => {
                let name: &str = callee.value.as_str();
                if same(name, "env") || same(name, "senv") {
                    return compile_variable(
                        callee,
                        arguments,
                        named_arguments,
                        options,
                        expression.span,
                        notes,
                    );
                }
                if same(name, "secret") {
                    return self.compile_secret(expression, scope, notes);
                }
                if same(name, "echo") {
                    notes.say("`echo` is a standalone statement and has no value", expression.span);
                    return None;
                }
                match split_once(name, '.') {
                    Some((capability, operation)) => self.compile_operation(
                        expression,
                        capability.as_str(),
                        operation.as_str(),
                        scope,
                        notes,
                    ),
                    None => self.compile_flow_call(expression, scope, notes),
                }
            },
            _ => None,
        }
    }

    fn compile_secret(&self, expression: &Expression, scope: &Scope, notes: &mut Notes) -> (value: Option<
        PlanExpression,
    >)
        requires
            self.valid(),
            self.holds(*scope),
        ensures
            (optional_plan(value), final(notes).model()) == lower_secret(
                self.model(),
                expression.model(),
                scope.model(),
                old(notes).model(),
            ),
        decreases expression, 0int,
    {
        proof {
            reveal(ExpressionKind::model);
            assert(expression.model().kind == expression.kind.model());
        }
        match &expression.kind {
            ExpressionKind::Call { callee, arguments, named_arguments, options } => {
                if options.len() > 0 || named_arguments.len() > 0 || arguments.len() != 1 {
                    notes.say(
                        "`secret` expects exactly one argument and no option block",
                        expression.span,
                    );
                    return None;
                }
                proof {
                    assert(expression_models(arguments@)[0] == arguments@[0].model());
                }
                match self.compile_expression(&arguments[0], scope, notes) {
                    Some(value) => Some(sensitive(value, expression.span)),
                    None => None,
                }
            },
            _ => None,
        }
    }

    fn compile_arguments(
        &self,
        arguments: &Vec<Expression>,
        scope: &Scope,
        types: &Vec<SchemaType>,
        notes: &mut Notes,
        done: &mut Vec<PlanExpression>,
    )
        requires
            self.valid(),
            self.holds(*scope),
        ensures
            (plan_models(final(done)@), final(notes).model()) == lower_arguments(
                self.model(),
                expression_models(arguments@),
                0,
                scope.model(),
                type_models(types@),
                old(notes).model(),
                plan_models(old(done)@),
            ),
        decreases arguments, 0int,
    {
        let ghost models = expression_models(arguments@);
        let ghost start = notes.model();
        let ghost first = plan_models(done@);
        let ghost kinds = type_models(types@);
        let mut at: usize = 0;
        while at < arguments.len()
            invariant
                self.valid(),
                self.holds(*scope),
                models == expression_models(arguments@),
                kinds == type_models(types@),
                at <= arguments@.len(),
                lower_arguments(self.model(), models, 0, scope.model(), kinds, start, first)
                    == lower_arguments(
                    self.model(),
                    models,
                    at as int,
                    scope.model(),
                    kinds,
                    notes.model(),
                    plan_models(done@),
                ),
            decreases arguments@.len() - at,
        {
            proof {
                assert(models[at as int] == arguments@[at as int].model());
            }
            if let Some(value) = self.compile_expression(&arguments[at], scope, notes) {
                if at < types.len() {
                    validate_type(&value, &types[at], arguments[at].span, notes);
                }
                let ghost before = plan_models(done@);
                done.push(value);
                proof {
                    assert(plan_models(done@) =~= before.push(value.model()));
                }
            }
            at += 1;
        }
    }

    fn compile_named(
        &self,
        named: &Vec<ObjectField>,
        scope: &Scope,
        parameters: &Vec<String>,
        types: &Vec<SchemaType>,
        notes: &mut Notes,
        done: &mut Vec<PlanExpression>,
    )
        requires
            self.valid(),
            self.holds(*scope),
        ensures
            (plan_models(final(done)@), final(notes).model()) == lower_named(
                self.model(),
                field_models(named@),
                0,
                scope.model(),
                views(parameters@),
                type_models(types@),
                old(notes).model(),
                plan_models(old(done)@),
            ),
        decreases named, 0int,
    {
        let ghost models = field_models(named@);
        let ghost start = notes.model();
        let ghost first = plan_models(done@);
        let ghost names = views(parameters@);
        let ghost kinds = type_models(types@);
        let mut at: usize = 0;
        while at < named.len()
            invariant
                self.valid(),
                self.holds(*scope),
                models == field_models(named@),
                names == views(parameters@),
                kinds == type_models(types@),
                at <= named@.len(),
                lower_named(self.model(), models, 0, scope.model(), names, kinds, start, first)
                    == lower_named(
                    self.model(),
                    models,
                    at as int,
                    scope.model(),
                    names,
                    kinds,
                    notes.model(),
                    plan_models(done@),
                ),
            decreases named@.len() - at,
        {
            proof {
                assert(models[at as int] == named@[at as int].model());
                assert(models[at as int].expression == named@[at as int].expression.model());
            }
            if let Some(parameter) = slot_in(parameters, named[at].name.value.as_str()) {
                if let Some(value) = self.compile_expression(
                    &named[at].expression,
                    scope,
                    notes,
                ) {
                    if parameter < types.len() {
                        validate_type(
                            &value,
                            &types[parameter],
                            named[at].expression.span,
                            notes,
                        );
                    }
                    let ghost before = plan_models(done@);
                    done.push(value);
                    proof {
                        assert(plan_models(done@) =~= before.push(value.model()));
                    }
                }
            }
            at += 1;
        }
    }

    fn compile_operation(
        &self,
        expression: &Expression,
        capability: &str,
        operation: &str,
        scope: &Scope,
        notes: &mut Notes,
    ) -> (value: Option<PlanExpression>)
        requires
            self.valid(),
            self.holds(*scope),
        ensures
            (optional_plan(value), final(notes).model()) == lower_operation(
                self.model(),
                expression.model(),
                capability@,
                operation@,
                scope.model(),
                old(notes).model(),
            ),
        decreases expression, 0int,
    {
        proof {
            reveal(ExpressionKind::model);
            assert(expression.model().kind == expression.kind.model());
        }
        match &expression.kind {
            ExpressionKind::Call { callee, arguments, named_arguments, options } => {
                let id: usize = match self.capability_names.get(capability) {
                    Some(id) => id,
                    None => {
                        notes.error(
                            wrapped("capability `", capability, "` is not registered"),
                            callee.span,
                        );
                        return None;
                    },
                };
                let operations: &Vec<OperationSchema> = &self.capabilities[id].operations;
                proof {
                    assert(self.model().capabilities[id as int]
                        == self.capabilities@[id as int].model());
                    assert(self.model().capabilities[id as int].operations == operation_models(
                        operations@,
                    ));
                }
                let at: usize = match find_operation(operations, operation) {
                    Some(at) => at,
                    None => {
                        let names: Vec<&'static str> = names_of_operations(operations);
                        let message: String = with_name_suggestion(
                            wrapped(
                                wrapped(
                                    "capability `",
                                    capability,
                                    "` has no operation `",
                                ).as_str(),
                                operation,
                                "`",
                            ),
                            operation,
                            &names,
                        );
                        notes.error(message, callee.span);
                        return None;
                    },
                };
                let called: &OperationSchema = &operations[at];
                proof {
                    assert(operation_models(operations@)[at as int] == called.model());
                    assert(plan_models(Seq::<PlanExpression>::empty()) =~= Seq::empty());
                    assert(plan_field_models(Seq::<PlanField>::empty()) =~= Seq::empty());
                    assert(views(Seq::<String>::empty()) =~= Seq::empty());
                }
                let parameters: Vec<String> = parameter_texts(&called.parameter_names);
                let mut order: Vec<usize> = count_up(arguments.len());
                let fine: bool = order_arguments(
                    &parameters,
                    named_arguments,
                    None,
                    &mut order,
                    notes,
                );
                let provided: u128 = arguments.len() as u128 + count_named(
                    &parameters,
                    named_arguments,
                ) as u128;
                if provided != called.parameters.len() as u128 {
                    notes.error(
                        count_message("operation `", callee, called.parameters.len(), provided),
                        expression.span,
                    );
                }
                let mut values: Vec<PlanExpression> = Vec::new();
                self.compile_arguments(arguments, scope, &called.parameters, notes, &mut values);
                self.compile_named(
                    named_arguments,
                    scope,
                    &parameters,
                    &called.parameters,
                    notes,
                    &mut values,
                );
                validate_exclusive(&called.mutually_exclusive, named_arguments, options, notes);
                let mut seen: Vec<String> = Vec::new();
                let mut fields: Vec<PlanField> = Vec::new();
                self.compile_fields(
                    named_arguments,
                    scope,
                    Some(&called.options),
                    &parameters,
                    notes,
                    &mut seen,
                    &mut fields,
                );
                let skip: Vec<String> = Vec::new();
                self.compile_fields(
                    options,
                    scope,
                    Some(&called.options),
                    &skip,
                    notes,
                    &mut seen,
                    &mut fields,
                );
                if named_arguments.len() as u128 + options.len() as u128 > usize::MAX as u128 {
                    notes.say("too many options are given", expression.span);
                    return None;
                }
                let given: Vec<PlanExpression> = hand_over(
                    values,
                    &order,
                    called.parameters.len(),
                    fine,
                );
                let evaluation: Vec<CallEvaluation> = evaluation_order(
                    &parameters,
                    arguments.len(),
                    named_arguments,
                    options.len(),
                );
                let value_type: ValueType = schema_value_type(&called.result);
                Some(
                    planned(
                        operation_kind(id, at, given, fields, evaluation),
                        value_type,
                        expression.span,
                    ),
                )
            },
            _ => None,
        }
    }

    fn compile_flow_call(&self, expression: &Expression, scope: &Scope, notes: &mut Notes) -> (value: Option<
        PlanExpression,
    >)
        requires
            self.valid(),
            self.holds(*scope),
        ensures
            (optional_plan(value), final(notes).model()) == lower_flow_call(
                self.model(),
                expression.model(),
                scope.model(),
                old(notes).model(),
            ),
        decreases expression, 0int,
    {
        proof {
            reveal(ExpressionKind::model);
            assert(expression.model().kind == expression.kind.model());
        }
        match &expression.kind {
            ExpressionKind::Call { callee, arguments, named_arguments, options } => {
                let current: usize = match scope.flow {
                    Some(current) => current,
                    None => {
                        notes.say(
                            "flow calls are not available while evaluating a context",
                            callee.span,
                        );
                        return None;
                    },
                };
                let home: &MettleDecl = &self.program.flows[current];
                proof {
                    assert(self.model().program.flows[current as int] == home.model());
                }
                let target: usize = match resolve(
                    &self.flows,
                    "flow",
                    callee.value.as_str(),
                    home.namespace.as_str(),
                    &home.namespace_uses,
                    callee.span,
                    notes,
                ) {
                    Some(target) => target,
                    None => {
                        return None;
                    },
                };
                let parameters: Vec<String> = name_texts(&self.program.flows[target].parameters);
                proof {
                    assert(self.model().program.flows[target as int]
                        == self.program.flows@[target as int].model());
                    assert(plan_models(Seq::<PlanExpression>::empty()) =~= Seq::empty());
                }
                notes.say_unless(
                    options.len() == 0,
                    "option blocks are only supported by capability operations",
                    expression.span,
                );
                let mut order: Vec<usize> = count_up(arguments.len());
                let fine: bool = order_arguments(
                    &parameters,
                    named_arguments,
                    Some(callee.value.as_str()),
                    &mut order,
                    notes,
                );
                let provided: u128 = arguments.len() as u128 + named_arguments.len() as u128;
                if provided != parameters.len() as u128 {
                    notes.error(
                        count_message("flow `", callee, parameters.len(), provided),
                        expression.span,
                    );
                }
                let mut values: Vec<PlanExpression> = Vec::new();
                self.compile_list(arguments, scope, notes, &mut values);
                self.compile_values(named_arguments, scope, notes, &mut values);
                notes.call(current, target, callee.span);
                let given: Vec<PlanExpression> = hand_over(
                    values,
                    &order,
                    parameters.len(),
                    fine,
                );
                Some(
                    planned(call_kind(target, given, order), ValueType::Inferred, expression.span),
                )
            },
            _ => None,
        }
    }

    fn compile_block(&self, expression: &Expression, scope: &Scope, notes: &mut Notes) -> (value: Option<
        PlanExpression,
    >)
        requires
            self.valid(),
            self.holds(*scope),
        ensures
            (optional_plan(value), final(notes).model()) == lower_block(
                self.model(),
                expression.model(),
                scope.model(),
                old(notes).model(),
            ),
        decreases expression, 1int,
    {
        proof {
            reveal(ExpressionKind::model);
            assert(expression.model().kind == expression.kind.model());
        }
        match &expression.kind {
            ExpressionKind::Block(statements) => {
                let mut inner: Scope = scope.duplicate();
                let row: Row = Row { block: true, tail: true, top: false };
                let (instructions, returned): (Vec<Instruction>, bool) = self.compile_statements(
                    statements,
                    row,
                    &mut inner,
                    notes,
                );
                notes.say_unless(
                    returned,
                    "a value block must end with an expression",
                    expression.span,
                );
                let value_type: ValueType = type_of_block(&instructions);
                Some(
                    planned(
                        block_kind(instructions, inner.slots),
                        value_type,
                        expression.span,
                    ),
                )
            },
            _ => None,
        }
    }

    fn compile_loop(&self, expression: &Expression, scope: &Scope, notes: &mut Notes) -> (value: Option<
        PlanExpression,
    >)
        requires
            self.valid(),
            self.holds(*scope),
        ensures
            (optional_plan(value), final(notes).model()) == lower_loop(
                self.model(),
                expression.model(),
                scope.model(),
                old(notes).model(),
            ),
        decreases expression, 1int,
    {
        proof {
            reveal(ExpressionKind::model);
            assert(expression.model().kind == expression.kind.model());
        }
        match &expression.kind {
            ExpressionKind::For { key, value, iterable, body } => {
                let iterable: PlanExpression = match self.compile_expression(
                    &**iterable,
                    scope,
                    notes,
                ) {
                    Some(iterable) => iterable,
                    None => {
                        return None;
                    },
                };
                let fine: bool = may(&iterable, ValueType::Array) || iterable.value_type
                    == ValueType::Object;
                notes.say_unless(fine, "`for` requires an array or object", iterable.span);
                let mut inner: Scope = match enter_loop(scope, key, value, notes) {
                    Some(inner) => inner,
                    None => {
                        return None;
                    },
                };
                let key_slot: Option<usize> = match key {
                    Some(_) => Some(scope.slots),
                    None => None,
                };
                let value_slot: usize = inner.slots - 1;
                let row: Row = Row { block: true, tail: true, top: false };
                let (instructions, returned): (Vec<Instruction>, bool) = self.compile_statements(
                    body,
                    row,
                    &mut inner,
                    notes,
                );
                let value_type: ValueType = if returned {
                    ValueType::Array
                } else {
                    ValueType::Null
                };
                Some(
                    planned(
                        loop_kind(
                            iterable,
                            key_slot,
                            value_slot,
                            instructions,
                            inner.slots,
                            returned,
                        ),
                        value_type,
                        expression.span,
                    ),
                )
            },
            _ => None,
        }
    }

    fn compile_echo(&self, expression: &Expression, scope: &Scope, notes: &mut Notes) -> (step: Option<
        Instruction,
    >)
        requires
            self.valid(),
            self.holds(*scope),
        ensures
            (optional_instruction(step), final(notes).model()) == lower_echo(
                self.model(),
                expression.model(),
                scope.model(),
                old(notes).model(),
            ),
        decreases expression, 3int,
    {
        proof {
            reveal(ExpressionKind::model);
            assert(expression.model().kind == expression.kind.model());
        }
        match &expression.kind {
            ExpressionKind::Call { callee, arguments, named_arguments, options } => {
                if options.len() > 0 || named_arguments.len() > 0 || arguments.len() != 1 {
                    notes.say(
                        "`echo` expects exactly one argument and no option block",
                        expression.span,
                    );
                    return None;
                }
                proof {
                    assert(expression_models(arguments@)[0] == arguments@[0].model());
                }
                match self.compile_expression(&arguments[0], scope, notes) {
                    Some(value) => Some(Instruction::Echo { value, span: expression.span }),
                    None => None,
                }
            },
            _ => None,
        }
    }

    /// Compiles one statement; the instruction and whether the flow returned.
    fn compile_statement(
        &self,
        statement: &Statement,
        last: bool,
        row: Row,
        scope: &mut Scope,
        notes: &mut Notes,
    ) -> (result: (Option<Instruction>, bool))
        requires
            self.valid(),
            self.holds(*old(scope)),
        ensures
            step(
                optional_instruction(result.0),
                result.1,
                final(scope).model(),
                final(notes).model(),
            ) == lower_statement(
                self.model(),
                statement.model(),
                last,
                row.model(),
                old(scope).model(),
                old(notes).model(),
            ),
            final(scope).flow == old(scope).flow,
            final(scope).context == old(scope).context,
        decreases statement, 1int,
    {
        match statement {
            Statement::UseContext { span, .. } => {
                notes.say_unless(row.top, "`use context` is only allowed at flow entry", *span);
                (None, false)
            },
            Statement::Bind { name, expression, .. } => {
                if !scope.check_new(name, notes) {
                    return (None, false);
                }
                let slot: usize = scope.slots;
                let lowered: Option<PlanExpression> = self.compile_expression(
                    expression,
                    scope,
                    notes,
                );
                scope.define(name.value.as_str());
                match lowered {
                    Some(expression) => (Some(Instruction::Bind { slot, expression }), false),
                    None => (None, false),
                }
            },
            Statement::Expression(expression) => {
                if echoes(expression) {
                    return (self.compile_echo(expression, scope, notes), false);
                }
                let value: bool = row.tail && last;
                let returned: bool = value || fails(expression);
                match self.compile_expression(expression, scope, notes) {
                    Some(expression) => if value {
                        (Some(Instruction::Return(expression)), returned)
                    } else {
                        (Some(Instruction::Evaluate(expression)), returned)
                    },
                    None => (None, returned),
                }
            },
            Statement::Return { expression, span } => {
                if row.block {
                    notes.say("`return` cannot exit a flow from inside a value block", *span);
                    return (None, false);
                }
                if scope.test {
                    notes.say("`return` is not allowed in a test", *span);
                    return (None, false);
                }
                match self.compile_expression(expression, scope, notes) {
                    Some(expression) => (Some(Instruction::Return(expression)), true),
                    None => (None, true),
                }
            },
            Statement::Assert { .. } => (self.compile_assertion(statement, scope, notes), false),
            Statement::If { .. } => self.compile_conditional(statement, last, row, scope, notes),
        }
    }

    fn compile_assertion(&self, statement: &Statement, scope: &Scope, notes: &mut Notes) -> (result:
        Option<Instruction>)
        requires
            self.valid(),
            self.holds(*scope),
        ensures
            step(optional_instruction(result), false, scope.model(), final(notes).model())
                == lower_assertion(
                self.model(),
                statement.model(),
                scope.model(),
                old(notes).model(),
            ),
        decreases statement, 0int,
    {
        match statement {
            Statement::Assert { expression, message, span } => {
                proof {
                    assert(statement.model() == (StatementModel::Assert {
                        expression: expression.model(),
                        message: match message {
                            Some(message) => Some(message.model()),
                            None => None,
                        },
                        span: *span,
                    }));
                }
                let condition: PlanExpression = match self.compile_expression(
                    expression,
                    scope,
                    notes,
                ) {
                    Some(condition) => condition,
                    None => {
                        return None;
                    },
                };
                let fine: bool = may(&condition, ValueType::Boolean);
                notes.say_unless(fine, "assertion expression must be boolean", condition.span);
                match message {
                    None => Some(Instruction::Assert { condition, message: None }),
                    Some(message) => match self.compile_expression(message, scope, notes) {
                        None => Some(Instruction::Assert { condition, message: None }),
                        Some(text) => {
                            let fine: bool = may(&text, ValueType::String);
                            notes.say_unless(
                                fine,
                                "assertion message must be a string",
                                text.span,
                            );
                            Some(Instruction::Assert { condition, message: Some(text) })
                        },
                    },
                }
            },
            _ => None,
        }
    }

    fn compile_if_branches(
        &self,
        branches: &Vec<IfBranch>,
        row: Row,
        scope: &mut Scope,
        notes: &mut Notes,
    ) -> (result: (Vec<ConditionalBranch>, bool))
        requires
            self.valid(),
            self.holds(*old(scope)),
        ensures
            (
                conditional_models(result.0@),
                result.1,
                final(scope).slots as int,
                final(notes).model(),
            ) == lower_if_branches(
                self.model(),
                if_branch_models(branches@),
                0,
                row.model(),
                old(scope).model(),
                old(notes).model(),
                Seq::empty(),
                true,
            ),
            final(scope).model() == old(scope).model().at_slots(final(scope).slots as int),
            final(scope).flow == old(scope).flow,
            final(scope).context == old(scope).context,
        decreases branches, 0int,
    {
        let ghost models = if_branch_models(branches@);
        let ghost first = *scope;
        let ghost start = notes.model();
        let mut done: Vec<ConditionalBranch> = Vec::new();
        let mut all: bool = true;
        proof {
            assert(conditional_models(done@) =~= Seq::empty());
        }
        let mut at: usize = 0;
        while at < branches.len()
            invariant
                self.valid(),
                self.holds(*scope),
                models == if_branch_models(branches@),
                at <= branches@.len(),
                scope.flow == first.flow,
                scope.context == first.context,
                scope.model() == first.model().at_slots(scope.slots as int),
                lower_if_branches(
                    self.model(),
                    models,
                    0,
                    row.model(),
                    first.model(),
                    start,
                    Seq::empty(),
                    true,
                ) == lower_if_branches(
                    self.model(),
                    models,
                    at as int,
                    row.model(),
                    scope.model(),
                    notes.model(),
                    conditional_models(done@),
                    all,
                ),
            decreases branches@.len() - at,
        {
            proof {
                assert(models[at as int] == branches@[at as int].model());
                assert(models[at as int].condition == branches@[at as int].condition.model());
            }
            let condition: Option<PlanExpression> = self.compile_expression(
                &branches[at].condition,
                scope,
                notes,
            );
            if let Some(condition) = &condition {
                let fine: bool = may(condition, ValueType::Boolean);
                notes.say_unless(fine, "if condition must be boolean", condition.span);
            }
            let mut inner: Scope = scope.duplicate();
            let (instructions, returned): (Vec<Instruction>, bool) = self.compile_statements(
                &branches[at].body,
                row,
                &mut inner,
                notes,
            );
            scope.slots = inner.slots;
            all = all && returned;
            if let Some(condition) = condition {
                let ghost before = conditional_models(done@);
                done.push(ConditionalBranch { condition, instructions });
                proof {
                    assert(conditional_models(done@) =~= before.push(
                        ConditionalBranchModel {
                            condition: condition.model(),
                            instructions: instruction_models(instructions@),
                        },
                    ));
                }
            }
            at += 1;
        }
        (done, all)
    }

    fn compile_conditional(
        &self,
        statement: &Statement,
        last: bool,
        row: Row,
        scope: &mut Scope,
        notes: &mut Notes,
    ) -> (result: (Option<Instruction>, bool))
        requires
            self.valid(),
            self.holds(*old(scope)),
        ensures
            step(
                optional_instruction(result.0),
                result.1,
                final(scope).model(),
                final(notes).model(),
            ) == lower_conditional(
                self.model(),
                statement.model(),
                last,
                row.model(),
                old(scope).model(),
                old(notes).model(),
            ),
            final(scope).flow == old(scope).flow,
            final(scope).context == old(scope).context,
        decreases statement, 0int,
    {
        match statement {
            Statement::If { branches, else_body, span } => {
                proof {
                    assert(statement.model() == (StatementModel::If {
                        branches: if_branch_models(branches@),
                        else_body: match else_body {
                            Some(body) => Some(statement_models(body@)),
                            None => None,
                        },
                        span: *span,
                    }));
                }
                let inner: Row = Row { block: row.block, tail: row.tail && last, top: false };
                let (lowered, all): (Vec<ConditionalBranch>, bool) = self.compile_if_branches(
                    branches,
                    inner,
                    scope,
                    notes,
                );
                match else_body {
                    None => {
                        let step: Instruction = Instruction::If {
                            branches: lowered,
                            else_body: None,
                        };
                        proof {
                            assert(step.model() == (InstructionModel::If {
                                branches: conditional_models(lowered@),
                                else_body: None,
                            }));
                        }
                        (Some(step), false)
                    },
                    Some(body) => {
                        let mut other: Scope = scope.duplicate();
                        let (instructions, returned): (Vec<Instruction>, bool) =
                            self.compile_statements(body, inner, &mut other, notes);
                        scope.slots = other.slots;
                        let step: Instruction = Instruction::If {
                            branches: lowered,
                            else_body: Some(instructions),
                        };
                        proof {
                            assert(optional_instructions(Some(instructions)) == Some(
                                instruction_models(instructions@),
                            ));
                            assert(step.model() == (InstructionModel::If {
                                branches: conditional_models(lowered@),
                                else_body: Some(instruction_models(instructions@)),
                            }));
                        }
                        (Some(step), all && returned)
                    },
                }
            },
            _ => (None, false),
        }
    }

    /// Compiles statements; the instructions and whether the flow returned.
    pub fn compile_statements(
        &self,
        statements: &Vec<Statement>,
        row: Row,
        scope: &mut Scope,
        notes: &mut Notes,
    ) -> (result: (Vec<Instruction>, bool))
        requires
            self.valid(),
            self.holds(*old(scope)),
        ensures
            (RowResult {
                instructions: instruction_models(result.0@),
                returned: result.1,
                slots: final(scope).slots as int,
                notes: final(notes).model(),
            }) == lower_row(
                self.model(),
                statement_models(statements@),
                0,
                row.model(),
                old(scope).model(),
                old(notes).model(),
                Seq::empty(),
                false,
            ),
            final(scope).flow == old(scope).flow,
            final(scope).context == old(scope).context,
        decreases statements, 0int,
    {
        let ghost models = statement_models(statements@);
        let ghost first = *scope;
        let ghost start = notes.model();
        let mut done: Vec<Instruction> = Vec::new();
        let mut returned: bool = false;
        proof {
            assert(instruction_models(done@) =~= Seq::empty());
        }
        let mut at: usize = 0;
        while at < statements.len()
            invariant
                self.valid(),
                self.holds(*scope),
                models == statement_models(statements@),
                at <= statements@.len(),
                scope.flow == first.flow,
                scope.context == first.context,
                lower_row(
                    self.model(),
                    models,
                    0,
                    row.model(),
                    first.model(),
                    start,
                    Seq::empty(),
                    false,
                ) == lower_row(
                    self.model(),
                    models,
                    at as int,
                    row.model(),
                    scope.model(),
                    notes.model(),
                    instruction_models(done@),
                    returned,
                ),
            decreases statements@.len() - at,
        {
            proof {
                assert(models[at as int] == statements@[at as int].model());
            }
            if returned {
                notes.say(
                    "statement is unreachable because the flow already returned",
                    statements[at].span(),
                );
            } else {
                let (instruction, ended): (Option<Instruction>, bool) = self.compile_statement(
                    &statements[at],
                    at + 1 == statements.len(),
                    row,
                    scope,
                    notes,
                );
                returned = ended;
                if let Some(instruction) = instruction {
                    let ghost before = instruction_models(done@);
                    done.push(instruction);
                    proof {
                        assert(instruction_models(done@) =~= before.push(instruction.model()));
                    }
                }
            }
            at += 1;
        }
        (done, returned)
    }
}

} // verus!
