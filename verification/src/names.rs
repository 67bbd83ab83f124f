//! Names of flows and contexts: what a name stands for where it is used, and
//! what a misspelt one may have meant.

use vstd::prelude::*;
use vstd::string::*;
use vstd::utf8::*;

use crate::syntax::{
    expression_models, DeclarationKind, Expression, ExpressionKind, ExpressionKindModel,
    ExpressionModel, MettleDecl, MettleDeclModel, Spanned, SpannedModel, Statement, StatementModel,
};
use crate::text::{
    decimal, decimal_text, is_digit, is_letter, listed, same, split_at, split_once, uppercase,
    uppered, views,
};

verus! {

// ---------------------------------------------------------------------------
// Tables

/// Names with the number of what they stand for; a later entry hides earlier
/// ones of the same name.
pub type NameTable = Seq<(Seq<char>, int)>;

/// What the name stands for.
pub open spec fn id_of(names: NameTable, name: Seq<char>) -> Option<int>
    decreases names.len(),
{
    if names.len() == 0 {
        None
    } else if names.last().0 == name {
        Some(names.last().1)
    } else {
        id_of(names.drop_last(), name)
    }
}

/// A table of names.
pub struct Names {
    pub entries: Vec<(String, usize)>,
}

impl Names {
    pub open spec fn model(self) -> NameTable {
        Seq::new(self.entries@.len(), |i: int| (self.entries@[i].0@, self.entries@[i].1 as int))
    }

    pub fn new() -> (names: Names)
        ensures
            names.model() == Seq::<(Seq<char>, int)>::empty(),
            names.entries@.len() == 0,
    {
        let names: Names = Names { entries: Vec::new() };
        proof {
            assert(names.model() =~= Seq::empty());
        }
        names
    }

    /// Enters a name.
    pub fn add(&mut self, name: String, id: usize)
        ensures
            final(self).model() == old(self).model().push((name@, id as int)),
    {
        self.entries.push((name, id));
        proof {
            assert(self.model() =~= old(self).model().push((name@, id as int)));
        }
    }

    /// What the name stands for.
    pub fn get(&self, name: &str) -> (id: Option<usize>)
        ensures
            (match id {
                Some(id) => Some(id as int),
                None => None,
            }) == id_of(self.model(), name@),
            id matches Some(id) ==> exists|i: int|
                0 <= i < self.entries@.len() && (#[trigger] self.entries@[i]).1 == id,
    {
        let mut at: usize = self.entries.len();
        proof {
            assert(self.model().take(at as int) =~= self.model());
        }
        while at > 0
            invariant
                at <= self.entries@.len(),
                id_of(self.model(), name@) == id_of(self.model().take(at as int), name@),
            decreases at,
        {
            at -= 1;
            proof {
                assert(self.model().take(at + 1).drop_last() =~= self.model().take(at as int));
                assert(self.model().take(at + 1).last() == self.model()[at as int]);
            }
            if same(self.entries[at].0.as_str(), name) {
                return Some(self.entries[at].1);
            }
        }
        None
    }

    /// The same table once more.
    pub fn duplicate(&self) -> (copy: Names)
        ensures
            copy.model() == self.model(),
            copy.entries@.len() == self.entries@.len(),
    {
        let mut entries: Vec<(String, usize)> = Vec::new();
        let mut at: usize = 0;
        while at < self.entries.len()
            invariant
                at <= self.entries@.len(),
                entries@.len() == at,
                forall|i: int|
                    0 <= i < at ==> (#[trigger] entries@[i]).0@ == self.entries@[i].0@
                        && entries@[i].1 == self.entries@[i].1,
            decreases self.entries@.len() - at,
        {
            let name: String = self.entries[at].0.clone();
            entries.push((name, self.entries[at].1));
            at += 1;
        }
        let copy: Names = Names { entries };
        proof {
            assert(copy.model() =~= self.model());
        }
        copy
    }
}

// ---------------------------------------------------------------------------
// Visibility

/// A name in a namespace; the empty namespace adds nothing.
pub open spec fn qualified(namespace: Seq<char>, name: Seq<char>) -> Seq<char> {
    if namespace.len() == 0 {
        name
    } else {
        namespace + "."@ + name
    }
}

pub fn qualified_name(namespace: &str, name: &str) -> (whole: String)
    ensures
        whole@ == qualified(namespace@, name@),
{
    if same(namespace, "") {
        proof {
            reveal_strlit("");
            assert(""@ =~= Seq::empty());
        }
        name.to_owned()
    } else {
        proof {
            reveal_strlit("");
            if namespace@.len() == 0 {
                assert(namespace@ =~= ""@);
            }
        }
        let mut whole: String = namespace.to_owned();
        whole.append(".");
        whole.append(name);
        whole
    }
}

pub enum ResolutionModel {
    Found(int),
    Missing,
    Ambiguous(Seq<Seq<char>>),
}

/// The names of the table that `name` may mean through the namespaces in use,
/// from the use at `from` on, behind those that were found before.
pub open spec fn visible(
    names: NameTable,
    name: Seq<char>,
    uses: Seq<SpannedModel>,
    from: int,
    found: Seq<Seq<char>>,
) -> Seq<Seq<char>>
    decreases uses.len() - from,
{
    if from < 0 || from >= uses.len() {
        found
    } else {
        let candidate = qualified(uses[from].value, name);
        if id_of(names, candidate) is Some && !found.contains(candidate) {
            visible(names, name, uses, from + 1, found.push(candidate))
        } else {
            visible(names, name, uses, from + 1, found)
        }
    }
}

/// What `name` means in a namespace with others in use: the namespace's own
/// name first, else the one name among the global one and those of the
/// namespaces in use.
pub open spec fn resolution(
    names: NameTable,
    name: Seq<char>,
    namespace: Seq<char>,
    uses: Seq<SpannedModel>,
) -> ResolutionModel {
    match id_of(names, qualified(namespace, name)) {
        Some(id) => ResolutionModel::Found(id),
        None => {
            let global = if namespace.len() > 0 && id_of(names, name) is Some {
                seq![name]
            } else {
                Seq::empty()
            };
            let candidates = visible(names, name, uses, 0, global);
            if candidates.len() == 0 {
                ResolutionModel::Missing
            } else if candidates.len() == 1 {
                ResolutionModel::Found(id_of(names, candidates[0])->0)
            } else {
                ResolutionModel::Ambiguous(candidates)
            }
        },
    }
}

pub enum NameResolution {
    Found(usize),
    Missing,
    Ambiguous(Vec<String>),
}

impl NameResolution {
    pub open spec fn model(self) -> ResolutionModel {
        match self {
            NameResolution::Found(id) => ResolutionModel::Found(id as int),
            NameResolution::Missing => ResolutionModel::Missing,
            NameResolution::Ambiguous(candidates) => ResolutionModel::Ambiguous(
                views(candidates@),
            ),
        }
    }
}

pub open spec fn all_known(names: NameTable, found: Seq<Seq<char>>) -> bool {
    forall|i: int| 0 <= i < found.len() ==> id_of(names, #[trigger] found[i]) is Some
}

/// Finds what `name` means in a namespace with others in use.
pub fn resolve_visible_name(
    names: &Names,
    name: &str,
    namespace: &str,
    uses: &Vec<Spanned<String>>,
) -> (found: NameResolution)
    ensures
        found.model() == resolution(
            names.model(),
            name@,
            namespace@,
            crate::syntax::spanned_models(uses@),
        ),
        found matches NameResolution::Found(id) ==> exists|i: int|
            0 <= i < names.entries@.len() && (#[trigger] names.entries@[i]).1 == id,
{
    let ghost models = crate::syntax::spanned_models(uses@);
    let ghost table = names.model();
    let local: String = qualified_name(namespace, name);
    if let Some(id) = names.get(local.as_str()) {
        return NameResolution::Found(id);
    }
    let mut candidates: Vec<String> = Vec::new();
    let scoped: bool = !same(namespace, "");
    proof {
        reveal_strlit("");
        assert(""@ =~= Seq::empty());
        if namespace@.len() == 0 {
            assert(namespace@ =~= ""@);
        }
    }
    if scoped && names.get(name).is_some() {
        candidates.push(name.to_owned());
    }
    let ghost global = if namespace@.len() > 0 && id_of(table, name@) is Some {
        seq![name@]
    } else {
        Seq::empty()
    };
    proof {
        assert(views(candidates@) =~= global);
    }
    let mut at: usize = 0;
    while at < uses.len()
        invariant
            table == names.model(),
            models == crate::syntax::spanned_models(uses@),
            at <= uses@.len(),
            all_known(table, views(candidates@)),
            visible(table, name@, models, 0, global) == visible(
                table,
                name@,
                models,
                at as int,
                views(candidates@),
            ),
        decreases uses@.len() - at,
    {
        let candidate: String = qualified_name(uses[at].value.as_str(), name);
        proof {
            assert(models[at as int] == uses@[at as int].model());
        }
        if names.get(candidate.as_str()).is_some() && !listed(&candidates, candidate.as_str()) {
            let ghost held = candidates@;
            candidates.push(candidate);
            proof {
                assert(views(candidates@) =~= views(held).push(candidate@));
            }
        }
        at += 1;
    }
    if candidates.len() == 0 {
        NameResolution::Missing
    } else if candidates.len() == 1 {
        proof {
            assert(views(candidates@)[0] == candidates@[0]@);
        }
        match names.get(candidates[0].as_str()) {
            Some(id) => NameResolution::Found(id),
            None => NameResolution::Missing,
        }
    } else {
        NameResolution::Ambiguous(candidates)
    }
}

/// Whether the text can name something.
pub open spec fn is_identifier(text: Seq<char>) -> bool {
    &&& text.len() > 0
    &&& is_letter(text[0]) || text[0] == '_'
    &&& forall|i: int|
        1 <= i < text.len() ==> is_letter(#[trigger] text[i]) || is_digit(text[i]) || text[i] == '_'
}

// ---------------------------------------------------------------------------
// Suggestions

pub open spec fn smaller(a: nat, b: nat) -> nat {
    if a <= b {
        a
    } else {
        b
    }
}

/// The number of bytes to insert, delete or replace to turn one text into the
/// other.
pub open spec fn distance(left: Seq<u8>, right: Seq<u8>) -> nat
    decreases left.len() + right.len(),
{
    if left.len() == 0 {
        right.len()
    } else if right.len() == 0 {
        left.len()
    } else if left.last() == right.last() {
        distance(left.drop_last(), right.drop_last())
    } else {
        1 + smaller(
            smaller(
                distance(left.drop_last(), right.drop_last()),
                distance(left.drop_last(), right),
            ),
            distance(left, right.drop_last()),
        )
    }
}

/// The distances from the first bytes of `left` to the beginnings of `right`.
pub open spec fn is_row(row: Seq<usize>, left: Seq<u8>, right: Seq<u8>, upto: int) -> bool {
    forall|j: int| 0 <= j < upto ==> #[trigger] row[j] == distance(left, right.take(j))
}

proof fn lemma_distance_bound(left: Seq<u8>, right: Seq<u8>)
    ensures
        distance(left, right) <= left.len() || distance(left, right) <= right.len(),
    decreases left.len() + right.len(),
{
    if left.len() > 0 && right.len() > 0 {
        if left.last() == right.last() {
            lemma_distance_bound(left.drop_last(), right.drop_last());
        } else {
            lemma_distance_bound(left.drop_last(), right.drop_last());
        }
    }
}

/// Counts the bytes to insert, delete or replace.
pub fn edit_distance(left: &str, right: &str) -> (count: usize)
    ensures
        count == distance(encode_utf8(left@), encode_utf8(right@)),
{
    let a: &[u8] = left.as_bytes();
    let b: &[u8] = right.as_bytes();
    let width: usize = b.len();
    let mut previous: Vec<usize> = Vec::new();
    previous.push(0);
    let mut column: usize = 0;
    while column < width
        invariant
            width == b@.len(),
            column <= width,
            previous@.len() == column + 1,
            forall|j: int| 0 <= j <= column ==> #[trigger] previous@[j] == j,
        decreases width - column,
    {
        column += 1;
        previous.push(column);
    }
    proof {
        assert(is_row(previous@, a@.take(0), b@, width + 1));
    }
    let height: usize = a.len();
    let mut row: usize = 0;
    while row < height
        invariant
            width == b@.len(),
            height == a@.len(),
            a@.len() <= usize::MAX,
            row <= a@.len(),
            previous@.len() == width + 1,
            is_row(previous@, a@.take(row as int), b@, width + 1),
        decreases a@.len() - row,
    {
        let ghost upper = a@.take(row as int);
        let ghost lower = a@.take(row + 1);
        let mut current: Vec<usize> = Vec::new();
        current.push(row + 1);
        let mut at: usize = 0;
        proof {
            assert(b@.take(0).len() == 0);
            assert(lower.drop_last() =~= upper);
            assert(lower.last() == a@[row as int]);
        }
        while at < width
            invariant
                width == b@.len(),
                a@.len() <= usize::MAX,
                row < a@.len(),
                at <= width,
                upper == a@.take(row as int),
                lower == a@.take(row + 1),
                lower.drop_last() == upper,
                lower.last() == a@[row as int],
                previous@.len() == width + 1,
                is_row(previous@, upper, b@, width + 1),
                current@.len() == at + 1,
                is_row(current@, lower, b@, at + 1),
            decreases width - at,
        {
            proof {
                assert(b@.take(at + 1).drop_last() =~= b@.take(at as int));
                assert(b@.take(at + 1).last() == b@[at as int]);
                assert(previous@[at as int] == distance(upper, b@.take(at as int)));
                assert(previous@[at + 1] == distance(upper, b@.take(at + 1)));
                assert(current@[at as int] == distance(lower, b@.take(at as int)));
                lemma_distance_bound(lower, b@.take(at + 1));
            }
            let next: usize = if a[row] == b[at] {
                previous[at]
            } else {
                let mut least: usize = previous[at];
                if previous[at + 1] < least {
                    least = previous[at + 1];
                }
                if current[at] < least {
                    least = current[at];
                }
                1 + least
            };
            let ghost held = current@;
            current.push(next);
            proof {
                assert forall|j: int| 0 <= j < at + 2 implies #[trigger] current@[j] == distance(
                    lower,
                    b@.take(j),
                ) by {
                    if j < at + 1 {
                        assert(held[j] == distance(lower, b@.take(j)));
                    }
                }
            }
            at += 1;
        }
        previous = current;
        row += 1;
    }
    proof {
        assert(a@.take(a@.len() as int) =~= a@);
        assert(b@.take(b@.len() as int) =~= b@);
        assert(previous@[width as int] == distance(a@, b@.take(width as int)));
    }
    previous[width]
}

/// The position of the candidate nearest to `name`, the first of several;
/// `best` is the nearest one before `from`.
pub open spec fn nearest(name: Seq<char>, candidates: Seq<Seq<char>>, from: int, best: int) -> int
    decreases candidates.len() - from,
{
    if from < 0 || from >= candidates.len() {
        best
    } else if best < 0 || distance(encode_utf8(name), encode_utf8(candidates[from])) < distance(
        encode_utf8(name),
        encode_utf8(candidates[best]),
    ) {
        nearest(name, candidates, from + 1, from)
    } else {
        nearest(name, candidates, from + 1, best)
    }
}

/// The message with the nearest candidate, if that is near enough to be meant.
pub open spec fn suggested(
    message: Seq<char>,
    name: Seq<char>,
    candidates: Seq<Seq<char>>,
) -> Seq<char> {
    let best = nearest(name, candidates, 0, -1);
    let length = encode_utf8(name).len();
    let reach = if length > 3 {
        length
    } else {
        3
    };
    if 0 <= best < candidates.len() && distance(
        encode_utf8(name),
        encode_utf8(candidates[best]),
    ) <= 3 && 3 * distance(encode_utf8(name), encode_utf8(candidates[best])) <= reach {
        message + "; did you mean `"@ + candidates[best] + "`?"@
    } else {
        message
    }
}

pub open spec fn static_views(texts: Seq<&'static str>) -> Seq<Seq<char>> {
    Seq::new(texts.len(), |i: int| texts[i]@)
}

/// The message with the nearest candidate, if that is near enough.
pub fn with_name_suggestion(message: String, name: &str, candidates: &Vec<&'static str>) -> (whole:
    String)
    ensures
        whole@ == suggested(message@, name@, static_views(candidates@)),
{
    let ghost views = static_views(candidates@);
    if candidates.len() == 0 {
        return message;
    }
    let mut best: usize = 0;
    let mut least: usize = edit_distance(name, candidates[0]);
    let mut at: usize = 1;
    proof {
        assert(views[0] == candidates@[0]@);
    }
    while at < candidates.len()
        invariant
            views == static_views(candidates@),
            at <= candidates@.len(),
            best < candidates@.len(),
            least == distance(encode_utf8(name@), encode_utf8(views[best as int])),
            nearest(name@, views, 0, -1) == nearest(name@, views, at as int, best as int),
        decreases candidates@.len() - at,
    {
        let count: usize = edit_distance(name, candidates[at]);
        proof {
            assert(views[at as int] == candidates@[at as int]@);
        }
        if count < least {
            best = at;
            least = count;
        }
        at += 1;
    }
    let length: usize = name.as_bytes().len();
    if least <= 3 && (least * 3 <= 3 || least * 3 <= length) {
        let mut whole: String = message;
        whole.append("; did you mean `");
        whole.append(candidates[best]);
        whole.append("`?");
        proof {
            assert(views[best as int] == candidates@[best as int]@);
        }
        return whole;
    }
    message
}

// ---------------------------------------------------------------------------
// Display names

/// What reports call a flow without a name: what it returns the result of,
/// else its number.
pub open spec fn anonymous_name(flow: MettleDeclModel, id: int) -> Seq<char> {
    let numbered = "anonymous flow "@ + decimal((id + 1) as nat);
    if flow.body.len() == 1 {
        match flow.body[0] {
            StatementModel::Return { expression, span } => match expression.kind {
                ExpressionKindModel::Call { callee, arguments, named_arguments, options } =>
                    called_name(callee.value, arguments),
                _ => numbered,
            },
            _ => numbered,
        }
    } else {
        numbered
    }
}

/// What reports call a call: a request by its method and address.
pub open spec fn called_name(callee: Seq<char>, arguments: Seq<ExpressionModel>) -> Seq<char> {
    match split_at(callee, '.') {
        Some((capability, operation)) => if capability == "http"@ && arguments.len() > 0
            && arguments[0].kind is String {
            uppered(operation) + " "@ + arguments[0].kind->String_0
        } else {
            callee
        },
        None => callee,
    }
}

/// What reports call a flow or a test.
pub open spec fn display_name(flow: MettleDeclModel, id: int) -> Seq<char> {
    match flow.name {
        Some(name) => if flow.kind == DeclarationKind::Test {
            name.value
        } else {
            qualified(flow.namespace, name.value)
        },
        None => anonymous_name(flow, id),
    }
}

fn call_display_name(callee: &Spanned<String>, arguments: &Vec<Expression>) -> (name: String)
    ensures
        name@ == called_name(callee.value@, expression_models(arguments@)),
{
    proof {
        reveal(ExpressionKind::model);
    }
    if let Some((capability, operation)) = split_once(callee.value.as_str(), '.') {
        if same(capability.as_str(), "http") && arguments.len() > 0 {
            proof {
                assert(expression_models(arguments@)[0] == arguments@[0].model());
            }
            if let ExpressionKind::String(url) = &arguments[0].kind {
                let mut name: String = uppercase(operation.as_str());
                name.append(" ");
                name.append(url.as_str());
                return name;
            }
        }
    }
    callee.value.clone()
}

/// What reports call a flow or a test.
pub fn flow_display_name(flow: &MettleDecl, id: usize) -> (name: String)
    ensures
        name@ == display_name(flow.model(), id as int),
{
    if let Some(name) = &flow.name {
        if flow.kind == DeclarationKind::Test {
            return name.value.clone();
        }
        return qualified_name(flow.namespace.as_str(), name.value.as_str());
    }
    proof {
        reveal(ExpressionKind::model);
    }
    if flow.body.len() == 1 {
        proof {
            assert(flow.model().body[0] == flow.body@[0].model());
        }
        if let Statement::Return { expression, span } = &flow.body[0] {
            proof {
                assert(flow.body@[0].model() == (StatementModel::Return {
                    expression: expression.model(),
                    span: *span,
                }));
                assert(expression.model().kind == expression.kind.model());
            }
            if let ExpressionKind::Call { callee, arguments, .. } = &expression.kind {
                return call_display_name(callee, arguments);
            }
        }
    }
    let mut name: String = "anonymous flow ".to_owned();
    name.append(decimal_text(id as u128 + 1).as_str());
    name
}

} // verus!
