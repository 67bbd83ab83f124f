//! How things are named and found: names, kinds, lines, and settings.

use vstd::prelude::*;
use vstd::utf8::encode_utf8;

use crate::dotenv::{
    all_entries, behind_marks, comment_at, declared_on, entered, entries_from, environment,
    file_entries, is_name, law_entered, law_process_counts_first, line_between, line_entry,
    line_value, quoted_value, EnvironmentFileModel,
};
use crate::execution::variable;
use crate::names::{called_name, display_name, distance, nearest, suggested};
use crate::positions::{line_start, newlines};
use crate::syntax::{DeclarationKind, ExpressionKindModel, ExpressionModel, MettleDeclModel};
use crate::text::{
    begins_with, first_solid, is_digit, is_letter, is_space, last_solid, lemma_position_of, lower,
    position_of, split_at, trimmed, trimmed_end, trimmed_start, upper, uppered,
};
use crate::value::{kind_name, ValueModel};

verus! {

// ---------------------------------------------------------------------------
// Suggestions

/// How far a candidate is from a name.
pub open spec fn apart(name: Seq<char>, candidate: Seq<char>) -> nat {
    distance(encode_utf8(name), encode_utf8(candidate))
}

proof fn lemma_nearest(name: Seq<char>, candidates: Seq<Seq<char>>, from: int, best: int)
    requires
        0 <= from <= candidates.len(),
        -1 <= best < from,
        from > 0 ==> best >= 0,
        forall|i: int|
            0 <= i < from ==> apart(name, candidates[best]) <= apart(
                name,
                #[trigger] candidates[i],
            ),
    ensures
        ({
            let found = nearest(name, candidates, from, best);
            &&& candidates.len() > 0 ==> 0 <= found < candidates.len()
            &&& candidates.len() == 0 ==> found == -1
            &&& forall|i: int|
                0 <= i < candidates.len() ==> apart(name, candidates[found]) <= apart(
                    name,
                    #[trigger] candidates[i],
                )
        }),
    decreases candidates.len() - from,
{
    if from < candidates.len() {
        if best < 0 || apart(name, candidates[from]) < apart(name, candidates[best]) {
            assert forall|i: int| 0 <= i < from + 1 implies apart(name, candidates[from]) <= apart(
                name,
                #[trigger] candidates[i],
            ) by {
                if i < from {
                    assert(apart(name, candidates[best]) <= apart(name, candidates[i]));
                }
            }
            lemma_nearest(name, candidates, from + 1, from);
        } else {
            lemma_nearest(name, candidates, from + 1, best);
        }
    }
}

/// Whether a candidate is near enough to a name to be meant.
pub open spec fn may_be_meant(name: Seq<char>, candidate: Seq<char>) -> bool {
    let length = encode_utf8(name).len();
    apart(name, candidate) <= 3 && 3 * apart(name, candidate) <= (if length > 3 {
        length
    } else {
        3
    })
}

/// Where a candidate may be meant, the nearest is suggested; where none may,
/// the message stays as it is.
pub proof fn law_the_nearest_is_suggested(
    message: Seq<char>,
    name: Seq<char>,
    candidates: Seq<Seq<char>>,
)
    ensures
        (forall|i: int|
            0 <= i < candidates.len() ==> !may_be_meant(name, #[trigger] candidates[i]))
            ==> suggested(message, name, candidates) == message,
        (exists|i: int|
            0 <= i < candidates.len() && may_be_meant(name, #[trigger] candidates[i]))
            ==> exists|best: int|
            0 <= best < candidates.len() && suggested(message, name, candidates) == message
                + "; did you mean `"@ + (#[trigger] candidates[best]) + "`?"@ && forall|i: int|
                0 <= i < candidates.len() ==> apart(name, candidates[best]) <= apart(
                    name,
                    #[trigger] candidates[i],
                ),
{
    lemma_nearest(name, candidates, 0, -1);
    let best = nearest(name, candidates, 0, -1);
    if exists|i: int| 0 <= i < candidates.len() && may_be_meant(name, #[trigger] candidates[i]) {
        let i = choose|i: int|
            0 <= i < candidates.len() && may_be_meant(name, #[trigger] candidates[i]);
        assert(apart(name, candidates[best]) <= apart(name, candidates[i]));
        assert(may_be_meant(name, candidates[best]));
    } else if candidates.len() > 0 {
        assert(!may_be_meant(name, candidates[best]));
    }
}

// ---------------------------------------------------------------------------
// Names

/// A name in a namespace has that before it, behind a dot; without one it is as
/// it is. A test is named as it says.
pub proof fn law_names_are_qualified(flow: MettleDeclModel, id: int)
    ensures
        flow.name matches Some(name) ==> {
            &&& flow.kind == DeclarationKind::Test || flow.namespace.len() == 0 ==> display_name(
                flow,
                id,
            ) == name.value
            &&& flow.kind == DeclarationKind::Flow && flow.namespace.len() > 0 ==> {
                let shown = display_name(flow, id);
                let count = flow.namespace.len() as int;
                &&& shown.len() == count + 1 + name.value.len()
                &&& shown.take(count) == flow.namespace
                &&& shown[count] == '.'
                &&& shown.skip(count + 1) == name.value
            }
        },
{
    if let Some(name) = flow.name {
        if flow.kind == DeclarationKind::Flow && flow.namespace.len() > 0 {
            reveal_strlit(".");
            assert("."@.len() == 1 && "."@[0] == '.');
            let shown = flow.namespace + "."@ + name.value;
            let count = flow.namespace.len() as int;
            assert(shown.take(count) =~= flow.namespace);
            assert(shown.skip(count + 1) =~= name.value);
        }
    }
}

/// A request is called by its method, in capitals, and its address.
pub proof fn law_requests_are_called_by_their_method(
    operation: Seq<char>,
    arguments: Seq<ExpressionModel>,
    address: Seq<char>,
)
    requires
        arguments.len() > 0,
        arguments[0].kind == ExpressionKindModel::String(address),
    ensures
        called_name("http."@ + operation, arguments) == uppered(operation) + seq![' '] + address,
{
    reveal_strlit("http.");
    reveal_strlit("http");
    reveal_strlit(" ");
    let callee = "http."@ + operation;
    assert("http."@.len() == 5 && "http."@[4] == '.');
    assert("http."@[0] == 'h' && "http."@[1] == 't' && "http."@[2] == 't' && "http."@[3] == 'p');
    lemma_position_of(callee, '.', 0);
    assert(callee[0] == 'h' && callee[1] == 't' && callee[2] == 't' && callee[3] == 'p');
    assert(callee[4] == '.');
    assert(position_of(callee, '.', 0) == 4);
    assert(callee.subrange(0, 4) =~= "http"@);
    assert(callee.subrange(5, callee.len() as int) =~= operation);
    assert(" "@ =~= seq![' ']);
}

/// Letters change their size and nothing else does; capitals made small are what
/// they were before they were made capital.
pub proof fn law_letters_change_their_size(c: char)
    ensures
        !is_letter(c) ==> upper(c) == c && lower(c) == c,
        'a' <= c <= 'z' ==> 'A' <= upper(c) <= 'Z' && lower(upper(c)) == c && lower(c) == c,
        'A' <= c <= 'Z' ==> 'a' <= lower(c) <= 'z' && upper(lower(c)) == c && upper(c) == c,
{
}

/// Values whose kinds have the same name are of the same kind, and a mark of
/// sensitivity does not change the name.
pub proof fn law_kinds_have_names(one: ValueModel, other: ValueModel)
    requires
        !(one is Sensitive),
        !(other is Sensitive),
        kind_name(one) == kind_name(other),
    ensures
        one is Null <==> other is Null,
        one is Boolean <==> other is Boolean,
        one is Integer <==> other is Integer,
        one is Float <==> other is Float,
        one is String <==> other is String,
        one is Bytes <==> other is Bytes,
        one is Duration <==> other is Duration,
        one is Array <==> other is Array,
        one is Object <==> other is Object,
        kind_name(one.sensitive()) == kind_name(one),
{
    reveal_strlit("null");
    reveal_strlit("boolean");
    reveal_strlit("integer");
    reveal_strlit("number");
    reveal_strlit("string");
    reveal_strlit("bytes");
    reveal_strlit("duration");
    reveal_strlit("array");
    reveal_strlit("object");
    reveal_with_fuel(kind_name, 2);
    assert("null"@.len() == 4 && "boolean"@.len() == 7 && "integer"@.len() == 7);
    assert("number"@.len() == 6 && "string"@.len() == 6 && "bytes"@.len() == 5);
    assert("duration"@.len() == 8 && "array"@.len() == 5 && "object"@.len() == 6);
    assert("boolean"@[0] == 'b' && "integer"@[0] == 'i' && "number"@[0] == 'n');
    assert("string"@[0] == 's' && "bytes"@[0] == 'b' && "array"@[0] == 'a' && "object"@[0] == 'o');
}

// ---------------------------------------------------------------------------
// Lines

proof fn lemma_line(chars: Seq<char>, index: int)
    requires
        0 <= index <= chars.len(),
    ensures
        0 <= line_start(chars, index) <= index,
        line_start(chars, index) == 0 || chars[line_start(chars, index) - 1] == '\n',
        forall|i: int| line_start(chars, index) <= i < index ==> chars[i] != '\n',
    decreases index,
{
    if index > 0 && chars[index - 1] != '\n' {
        lemma_line(chars, index - 1);
    }
}

/// A line number grows with each line break and with nothing else, and a column
/// counts from the last one.
pub proof fn law_lines_end_with_breaks(chars: Seq<char>, index: int)
    requires
        0 <= index < chars.len(),
    ensures
        newlines(chars, 0) == 0,
        newlines(chars, index + 1) == newlines(chars, index) + (if chars[index] == '\n' {
            1nat
        } else {
            0nat
        }),
        chars[index] == '\n' ==> line_start(chars, index + 1) == index + 1,
        chars[index] != '\n' ==> line_start(chars, index + 1) == line_start(chars, index),
        line_start(chars, index) == 0 || chars[line_start(chars, index) - 1] == '\n',
        forall|i: int| line_start(chars, index) <= i < index ==> chars[i] != '\n',
{
    lemma_line(chars, index);
}

// ---------------------------------------------------------------------------
// Settings

proof fn lemma_first(text: Seq<char>, from: int)
    requires
        0 <= from <= text.len(),
    ensures
        from <= first_solid(text, from) <= text.len(),
        first_solid(text, from) < text.len() ==> !is_space(text[first_solid(text, from)]),
        forall|i: int| from <= i < first_solid(text, from) ==> is_space(#[trigger] text[i]),
    decreases text.len() - from,
{
    if from < text.len() && is_space(text[from]) {
        lemma_first(text, from + 1);
    }
}

proof fn lemma_last(text: Seq<char>, from: int, end: int)
    requires
        0 <= from <= end <= text.len(),
    ensures
        from <= last_solid(text, from, end) <= end,
        last_solid(text, from, end) > from ==> !is_space(text[last_solid(text, from, end) - 1]),
        forall|i: int| last_solid(text, from, end) <= i < end ==> is_space(#[trigger] text[i]),
    decreases end - from,
{
    if from < end && is_space(text[end - 1]) {
        lemma_last(text, from, end - 1);
    }
}

/// A text that is trimmed neither begins nor ends with white space, and nothing
/// else is taken from its ends.
pub proof fn law_white_space_is_trimmed(text: Seq<char>)
    ensures
        ({
            let from = first_solid(text, 0);
            let end = last_solid(text, from, text.len() as int);
            let solid = trimmed(text);
            &&& 0 <= from <= end <= text.len()
            &&& solid == text.subrange(from, end)
            &&& forall|i: int| 0 <= i < from ==> is_space(#[trigger] text[i])
            &&& forall|i: int| end <= i < text.len() ==> is_space(#[trigger] text[i])
            &&& solid.len() > 0 ==> !is_space(solid[0]) && !is_space(solid.last())
        }),
{
    lemma_first(text, 0);
    lemma_last(text, first_solid(text, 0), text.len() as int);
}

proof fn lemma_letters_are_solid(c: char)
    requires
        is_letter(c) || is_digit(c) || c == '_',
    ensures
        !is_space(c),
        c != '=' && c != '#',
{
}

/// Whether a text stands for itself behind `=`: it has no white space around it,
/// no quote before it, and nothing in it begins a comment.
pub open spec fn stands_for_itself(value: Seq<char>) -> bool {
    &&& value.len() > 0 ==> !is_space(value[0]) && !is_space(value.last()) && value[0] != '"'
        && value[0] != '\''
    &&& forall|i: int| 0 <= i < value.len() ==> #[trigger] value[i] != '#'
}

proof fn lemma_no_comment(text: Seq<char>, from: int)
    requires
        0 <= from <= text.len(),
        forall|i: int| 0 <= i < text.len() ==> #[trigger] text[i] != '#',
    ensures
        comment_at(text, from) == text.len(),
    decreases text.len() - from,
{
    if from < text.len() {
        lemma_no_comment(text, from + 1);
    }
}

/// A line `NAME=value` gives the name that value.
pub proof fn law_settings_are_read(name: Seq<char>, value: Seq<char>)
    requires
        is_name(name),
        stands_for_itself(value),
    ensures
        line_entry(name + seq!['='] + value) == Ok::<_, Seq<char>>(Some((name, value))),
{
    let line = name + seq!['='] + value;
    lemma_letters_are_solid(name[0]);
    assert(line[0] == name[0]);
    assert(first_solid(line, 0) == 0);
    assert(trimmed_start(line) =~= line);
    reveal_strlit("export ");
    assert("export "@.len() == 7 && "export "@[6] == ' ');
    lemma_position_of(line, '=', 0);
    assert(line[name.len() as int] == '=');
    assert forall|i: int| 0 <= i < name.len() implies #[trigger] line[i] != '=' by {
        assert(line[i] == name[i]);
        lemma_letters_are_solid(name[i]);
    }
    let at = position_of(line, '=', 0);
    assert(at == name.len());
    if begins_with(line, "export "@) {
        assert(line.take(7)[6] == line[6]);
        if name.len() > 6 {
            assert(line[6] == name[6]);
            lemma_letters_are_solid(name[6]);
            assert(is_space(' '));
            assert(false);
        }
        lemma_export_is_no_name(name, value);
    }
    assert(line.subrange(0, at) =~= name);
    assert(line.subrange(at + 1, line.len() as int) =~= value);
    lemma_solid(name);
    lemma_value(value);
}

proof fn lemma_export_is_no_name(name: Seq<char>, value: Seq<char>)
    requires
        is_name(name),
        name.len() <= 6,
    ensures
        !begins_with(name + seq!['='] + value, "export "@),
{
    let line = name + seq!['='] + value;
    reveal_strlit("export ");
    assert("export "@.len() == 7);
    assert("export "@[0] == 'e' && "export "@[1] == 'x' && "export "@[2] == 'p');
    assert("export "@[3] == 'o' && "export "@[4] == 'r' && "export "@[5] == 't');
    assert("export "@[6] == ' ');
    if begins_with(line, "export "@) {
        let at = name.len() as int;
        assert(line.take(7)[at] == line[at]);
        assert(line[at] == '=');
        assert("export "@[at] != '=');
    }
}

proof fn lemma_solid(name: Seq<char>)
    requires
        is_name(name),
    ensures
        trimmed(name) == name,
{
    lemma_letters_are_solid(name[0]);
    lemma_letters_are_solid(name[name.len() - 1]);
    assert(first_solid(name, 0) == 0);
    assert(last_solid(name, 0, name.len() as int) == name.len());
    assert(trimmed(name) =~= name);
}

proof fn lemma_value(value: Seq<char>)
    requires
        stands_for_itself(value),
    ensures
        trimmed_start(value) == value,
        line_value(value) == Ok::<_, Seq<char>>(value),
{
    assert(first_solid(value, 0) == 0);
    assert(trimmed_start(value) =~= value);
    lemma_no_comment(value, 0);
    assert(value.take(value.len() as int) =~= value);
    assert(last_solid(value, 0, value.len() as int) == value.len());
    assert(trimmed_end(value) =~= value);
}

/// A line with nothing but white space, or with a comment alone, gives nothing.
pub proof fn law_comments_give_nothing(blank: Seq<char>, comment: Seq<char>)
    requires
        forall|i: int| 0 <= i < blank.len() ==> is_space(#[trigger] blank[i]),
        comment.len() == 0 || comment[0] == '#',
    ensures
        line_entry(blank + comment) == Ok::<Option<(Seq<char>, Seq<char>)>, Seq<char>>(None),
{
    let line = blank + comment;
    let count = blank.len() as int;
    lemma_first(line, 0);
    let from = first_solid(line, 0);
    if from < count {
        assert(line[from] == blank[from]);
        assert(is_space(blank[from]));
    }
    if comment.len() > 0 {
        assert(line[count] == '#');
        assert(!is_space('#'));
        if from > count {
            assert(is_space(line[count]));
        }
        assert(trimmed_start(line)[0] == '#');
    }
}

/// A file with a line `NAME=value` sets that name to the value and no other.
pub proof fn law_files_set_their_names(
    path: Seq<char>,
    name: Seq<char>,
    value: Seq<char>,
    values: Seq<(Seq<char>, Seq<char>)>,
    other: Seq<char>,
)
    requires
        is_name(name),
        stands_for_itself(value),
        forall|i: int| 0 <= i < value.len() ==> #[trigger] value[i] != '\n',
    ensures
        file_entries(path, name + seq!['='] + value, values) matches (None, after) && variable(
            after,
            other,
            0,
        ) == (if other == name {
            Some(value)
        } else {
            variable(values, other, 0)
        }),
{
    let text = name + seq!['='] + value;
    let count = text.len() as int;
    lemma_letters_are_solid(name[0]);
    assert(text[0] == name[0]);
    assert(behind_marks(text, 0) == 0) by {
        lemma_no_mark(name[0]);
    }
    assert(text.skip(0) =~= text);
    lemma_position_of(text, '\n', 0);
    let end = position_of(text, '\n', 0);
    if end < count {
        if end < name.len() {
            assert(text[end] == name[end]);
            lemma_no_mark(name[end]);
        } else if end == name.len() {
            assert(text[end] == '=');
        } else {
            assert(text[end] == value[end - name.len() - 1]);
        }
    }
    assert(end == count);
    assert(line_between(text, 0, count) =~= text);
    law_settings_are_read(name, value);
    law_entered(values, name, value, other);
    let after = entered(values, name, value, 0);
    let noted = Seq::<(Seq<char>, nat)>::empty().push((name, 1nat));
    assert(declared_on(Seq::empty(), name, 0) is None);
    assert(entries_from(path, text, count, 2, noted, after) == (None::<Seq<char>>, after));
    assert(entries_from(path, text, 0, 1, Seq::empty(), values) == entries_from(
        path,
        text,
        count,
        2,
        noted,
        after,
    ));
}

proof fn lemma_no_mark(c: char)
    requires
        is_letter(c) || is_digit(c) || c == '_',
    ensures
        c != '\u{feff}' && c != '\n',
{
}

/// What the file of a profile sets counts before what the plain file sets.
pub proof fn law_profiles_count_first(
    plain: Seq<char>,
    profiled: Seq<char>,
    profile: Seq<char>,
    name: Seq<char>,
    usual: Seq<char>,
    value: Seq<char>,
    process: Seq<(Seq<char>, Seq<char>)>,
)
    requires
        is_name(name),
        stands_for_itself(usual),
        stands_for_itself(value),
        forall|i: int| 0 <= i < usual.len() ==> #[trigger] usual[i] != '\n',
        forall|i: int| 0 <= i < value.len() ==> #[trigger] value[i] != '\n',
        forall|i: int, j: int|
            0 <= i < j < process.len() ==> (#[trigger] process[i]).0 != (#[trigger] process[j]).0,
        variable(process, name, 0) is None,
    ensures
        ({
            let first = EnvironmentFileModel {
                path: plain,
                text: Ok(Some(name + seq!['='] + usual)),
            };
            let second = EnvironmentFileModel {
                path: profiled,
                text: Ok(Some(name + seq!['='] + value)),
            };
            &&& environment(seq![first], Some(profile), seq![second], process) matches Ok(found)
                && variable(found, name, 0) == Some(value)
            &&& environment(seq![first], None, seq![second], process) matches Ok(found)
                && variable(found, name, 0) == Some(usual)
        }),
{
    let first = EnvironmentFileModel { path: plain, text: Ok(Some(name + seq!['='] + usual)) };
    let second = EnvironmentFileModel { path: profiled, text: Ok(Some(name + seq!['='] + value)) };
    let none = Seq::<(Seq<char>, Seq<char>)>::empty();
    law_files_set_their_names(plain, name, usual, none, name);
    let one = file_entries(plain, name + seq!['='] + usual, none).1;
    law_files_set_their_names(profiled, name, value, one, name);
    let two = file_entries(profiled, name + seq!['='] + value, one).1;
    assert(seq![first][0] == first && seq![second][0] == second);
    assert(all_entries(seq![first], 1, true, one)->Ok_0 == (true, one));
    assert(all_entries(seq![first], 0, false, none)->Ok_0 == (true, one));
    assert(all_entries(seq![second], 1, true, two)->Ok_0 == (true, two));
    assert(all_entries(seq![second], 0, false, one)->Ok_0 == (true, two));
    law_process_counts_first(one, process, name);
    law_process_counts_first(two, process, name);
}

/// Between double quotes a backslash with a letter behind it stands for a line
/// break, a return or a tab; with any other character, both stand for
/// themselves. Between single quotes a backslash is one.
pub proof fn law_escapes_are_read(text: Seq<char>, from: int, done: Seq<char>)
    requires
        0 <= from && from + 1 < text.len(),
        text[from] == '\\',
    ensures
        ({
            let c = text[from + 1];
            let rest = |read: Seq<char>| quoted_value(text, '"', from + 2, read);
            let all = quoted_value(text, '"', from, done);
            &&& c == 'n' ==> all == rest(done.push('\n'))
            &&& c == 'r' ==> all == rest(done.push('\r'))
            &&& c == 't' ==> all == rest(done.push('\t'))
            &&& c == '"' || c == '\\' ==> all == rest(done.push(c))
            &&& c != 'n' && c != 'r' && c != 't' && c != '"' && c != '\\' ==> all == rest(
                done.push('\\').push(c),
            )
        }),
        quoted_value(text, '\'', from, done) == quoted_value(
            text,
            '\'',
            from + 1,
            done.push('\\'),
        ),
{
    let c = text[from + 1];
    assert(done + seq!['\n'] =~= done.push('\n'));
    assert(done + seq!['\r'] =~= done.push('\r'));
    assert(done + seq!['\t'] =~= done.push('\t'));
    assert(done + seq!['"'] =~= done.push('"'));
    assert(done + seq!['\\'] =~= done.push('\\'));
    assert(done + seq!['\\', c] =~= done.push('\\').push(c));
}

proof fn lemma_split(name: Seq<char>, raw: Seq<char>)
    requires
        is_name(name),
    ensures
        split_at(name + seq!['='] + raw, '=') == Some((name, raw)),
{
    let line = name + seq!['='] + raw;
    lemma_position_of(line, '=', 0);
    assert(line[name.len() as int] == '=');
    let at = position_of(line, '=', 0);
    if at < name.len() {
        assert(line[at] == name[at]);
        lemma_letters_are_solid(name[at]);
    }
    assert(at == name.len());
    assert(line.subrange(0, at) =~= name);
    assert(line.subrange(at + 1, line.len() as int) =~= raw);
}

/// A setting may have `export` before it, which changes nothing.
pub proof fn law_exports_are_settings(name: Seq<char>, value: Seq<char>)
    requires
        is_name(name),
        stands_for_itself(value),
    ensures
        line_entry("export "@ + (name + seq!['='] + value)) == Ok::<_, Seq<char>>(
            Some((name, value)),
        ),
{
    let setting = name + seq!['='] + value;
    let line = "export "@ + setting;
    reveal_strlit("export ");
    assert("export "@.len() == 7 && "export "@[0] == 'e');
    assert(line[0] == 'e');
    assert(first_solid(line, 0) == 0);
    assert(trimmed_start(line) =~= line);
    assert(line.take(7) =~= "export "@);
    assert(line.skip(7) =~= setting);
    lemma_split(name, value);
    lemma_solid(name);
    lemma_value(value);
}

proof fn lemma_comment(value: Seq<char>, comment: Seq<char>, from: int)
    requires
        0 <= from <= value.len() + 1,
        forall|i: int| 0 <= i < value.len() ==> #[trigger] value[i] != '#',
    ensures
        comment_at(value + seq![' ', '#'] + comment, from) == value.len() + 1,
    decreases value.len() + 1 - from,
{
    let text = value + seq![' ', '#'] + comment;
    let count = value.len() as int;
    assert(text[count] == ' ' && text[count + 1] == '#');
    if from <= count {
        if from < count {
            assert(text[from] == value[from]);
        }
        lemma_comment(value, comment, from + 1);
    }
}

/// A comment behind a value does not belong to it.
pub proof fn law_comments_end_values(name: Seq<char>, value: Seq<char>, comment: Seq<char>)
    requires
        is_name(name),
        stands_for_itself(value),
        value.len() > 0,
    ensures
        line_entry(name + seq!['='] + (value + seq![' ', '#'] + comment)) == Ok::<_, Seq<char>>(
            Some((name, value)),
        ),
{
    let raw = value + seq![' ', '#'] + comment;
    let line = name + seq!['='] + raw;
    let count = value.len() as int;
    lemma_letters_are_solid(name[0]);
    assert(line[0] == name[0]);
    assert(first_solid(line, 0) == 0);
    assert(trimmed_start(line) =~= line);
    lemma_no_export(name, raw);
    lemma_split(name, raw);
    lemma_solid(name);
    assert(raw[0] == value[0]);
    assert(first_solid(raw, 0) == 0);
    assert(trimmed_start(raw) =~= raw);
    lemma_comment(value, comment, 0);
    let kept = raw.take(count + 1);
    assert(kept[count] == ' ' && kept[count - 1] == value.last());
    assert(last_solid(kept, 0, count) == count);
    assert(last_solid(kept, 0, count + 1) == count);
    assert(kept.subrange(0, count) =~= value);
}

proof fn lemma_no_export(name: Seq<char>, raw: Seq<char>)
    requires
        is_name(name),
    ensures
        !begins_with(name + seq!['='] + raw, "export "@),
{
    let line = name + seq!['='] + raw;
    reveal_strlit("export ");
    assert("export "@.len() == 7 && "export "@[6] == ' ');
    if begins_with(line, "export "@) {
        if name.len() > 6 {
            assert(line.take(7)[6] == line[6]);
            assert(line[6] == name[6]);
            lemma_letters_are_solid(name[6]);
            assert(is_space(' '));
        } else {
            lemma_export_is_no_name(name, raw);
        }
    }
}

} // verus!
