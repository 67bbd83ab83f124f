//! What is sensitive stays out of what is shown.

use vstd::prelude::*;

use crate::execution::{error_at, indexed, member_of, opposite, FrameModel, ProgressModel};
use crate::http_report::shown_headers;
use crate::redaction::{cleared, joined_secrets, replaced, stands_at};
use crate::report::{document, documents, field_document, field_documents, raw, rendered};
use crate::syntax::Span;
use crate::value::{entry_list, shown, shown_inside, value_list, EntryModel, ValueModel};

verus! {

// ---------------------------------------------------------------------------
// Values

/// The value with nothing behind its marks of sensitivity.
pub open spec fn hidden(value: ValueModel) -> ValueModel
    decreases value,
{
    match value {
        ValueModel::Array(values) => ValueModel::Array(hidden_values(values)),
        ValueModel::Object(entries) => ValueModel::Object(hidden_entries(entries)),
        ValueModel::Sensitive(_) => ValueModel::Sensitive(Box::new(ValueModel::Null)),
        _ => value,
    }
}

pub open spec fn hidden_values(values: Seq<ValueModel>) -> Seq<ValueModel>
    decreases values,
{
    Seq::new(
        values.len(),
        |i: int|
            if 0 <= i < values.len() {
                hidden(values[i])
            } else {
                arbitrary()
            },
    )
}

pub open spec fn hidden_entries(entries: Seq<EntryModel>) -> Seq<EntryModel>
    decreases entries,
{
    Seq::new(
        entries.len(),
        |i: int|
            if 0 <= i < entries.len() {
                hidden_entry(entries[i])
            } else {
                arbitrary()
            },
    )
}

pub open spec fn hidden_entry(entry: EntryModel) -> EntryModel
    decreases entry,
{
    EntryModel { name: entry.name, value: hidden(entry.value) }
}

proof fn lemma_shown(value: ValueModel)
    ensures
        shown(value, false) == shown(hidden(value), false),
    decreases value, 0int,
{
    match value {
        ValueModel::Array(values) => {
            lemma_value_list(values, 0);
        },
        ValueModel::Object(entries) => {
            lemma_entry_list(entries, 0);
        },
        _ => {},
    }
}

proof fn lemma_shown_inside(value: ValueModel)
    ensures
        shown_inside(value, false) == shown_inside(hidden(value), false),
    decreases value, 1int,
{
    lemma_shown(value);
}

proof fn lemma_value_list(values: Seq<ValueModel>, from: int)
    ensures
        value_list(values, from, false) == value_list(hidden_values(values), from, false),
    decreases values, values.len() - from,
{
    if 0 <= from < values.len() {
        lemma_shown_inside(values[from]);
        lemma_value_list(values, from + 1);
    }
}

proof fn lemma_entry_list(entries: Seq<EntryModel>, from: int)
    ensures
        entry_list(entries, from, false) == entry_list(hidden_entries(entries), from, false),
    decreases entries, entries.len() - from,
{
    if 0 <= from < entries.len() {
        lemma_shown_inside(entries[from].value);
        lemma_entry_list(entries, from + 1);
    }
}

proof fn lemma_document(value: ValueModel)
    ensures
        document(value) == document(hidden(value)),
    decreases value,
{
    match value {
        ValueModel::Array(values) => {
            lemma_documents(values);
        },
        ValueModel::Object(entries) => {
            lemma_field_documents(entries);
        },
        _ => {},
    }
}

proof fn lemma_documents(values: Seq<ValueModel>)
    ensures
        documents(values) == documents(hidden_values(values)),
    decreases values,
{
    let left = documents(values);
    let right = documents(hidden_values(values));
    assert forall|i: int| 0 <= i < values.len() implies left[i] == right[i] by {
        lemma_document(values[i]);
    }
    assert(left =~= right);
}

proof fn lemma_field_documents(entries: Seq<EntryModel>)
    ensures
        field_documents(entries) == field_documents(hidden_entries(entries)),
    decreases entries,
{
    let left = field_documents(entries);
    let right = field_documents(hidden_entries(entries));
    assert forall|i: int| 0 <= i < entries.len() implies left[i] == right[i] by {
        lemma_field_document(entries[i]);
    }
    assert(left =~= right);
}

proof fn lemma_field_document(entry: EntryModel)
    ensures
        field_document(entry) == field_document(hidden_entry(entry)),
    decreases entry,
{
    lemma_document(entry.value);
}

/// What is shown of a value, as text, as a document, in a report or on its own,
/// does not depend on anything that is marked as sensitive.
pub proof fn law_sensitive_values_are_not_shown(left: ValueModel, right: ValueModel)
    requires
        hidden(left) == hidden(right),
    ensures
        shown(left, false) == shown(right, false),
        document(left) == document(right),
        rendered(left) == rendered(right),
        raw(left) == raw(right),
{
    lemma_shown(left);
    lemma_shown(right);
    lemma_document(left);
    lemma_document(right);
}

/// The headers of a report do not depend on anything that is marked as
/// sensitive.
pub proof fn law_sensitive_headers_are_not_shown(left: Seq<EntryModel>, right: Seq<EntryModel>)
    requires
        hidden_entries(left) == hidden_entries(right),
    ensures
        shown_headers(left, 0, Seq::empty()) == shown_headers(right, 0, Seq::empty()),
{
    lemma_headers(left, 0, Seq::empty());
    lemma_headers(right, 0, Seq::empty());
}

proof fn lemma_headers(entries: Seq<EntryModel>, from: int, done: Seq<(Seq<char>, Seq<char>)>)
    ensures
        shown_headers(entries, from, done) == shown_headers(hidden_entries(entries), from, done),
    decreases entries.len() - from,
{
    if 0 <= from < entries.len() {
        lemma_shown(entries[from].value);
        lemma_headers(
            entries,
            from + 1,
            done.push((entries[from].name, shown(entries[from].value, false))),
        );
    }
}

/// What is read from a sensitive value, or with a sensitive index, is sensitive.
pub proof fn law_parts_stay_sensitive(value: ValueModel, member: Seq<char>, index: ValueModel)
    ensures
        value is Sensitive ==> (member_of(value, member) matches Ok(found) ==> found is Sensitive),
        value is Sensitive || index is Sensitive ==> (indexed(value, index) matches Ok(found)
            ==> found is Sensitive),
        value is Sensitive ==> (opposite(value) matches Ok(found) ==> found is Sensitive),
{
}

// ---------------------------------------------------------------------------
// Messages

/// Whether a text stands somewhere in another one.
pub open spec fn occurs(text: Seq<char>, word: Seq<char>) -> bool {
    exists|at: int| 0 <= at && #[trigger] stands_at(text, word, at)
}

/// Whether a word and a replacement can share no place in a text: however they
/// are laid over each other, they differ where both stand.
pub open spec fn apart(word: Seq<char>, replacement: Seq<char>) -> bool {
    forall|shift: int|
        -word.len() < shift < replacement.len() ==> #[trigger] clash(word, replacement, shift)
}

/// Whether a word that starts `shift` places behind the start of the
/// replacement differs from it somewhere.
pub open spec fn clash(word: Seq<char>, replacement: Seq<char>, shift: int) -> bool {
    exists|at: int|
        0 <= at < word.len() && 0 <= shift + at < replacement.len() && #[trigger] word[at]
            != replacement[shift + at]
}

/// Where a word stands in a text whose pattern was replaced, it stood in the
/// text before, and nothing of the pattern was found there.
proof fn lemma_replaced_word(
    text: Seq<char>,
    pattern: Seq<char>,
    replacement: Seq<char>,
    from: int,
    word: Seq<char>,
    at: int,
) -> (place: int)
    requires
        0 <= from,
        pattern.len() > 0,
        word.len() > 0,
        apart(word, replacement),
        0 <= at,
        stands_at(replaced(text, pattern, replacement, from), word, at),
    ensures
        from <= place,
        stands_at(text, word, place),
        word != pattern,
    decreases text.len() - from,
{
    let result = replaced(text, pattern, replacement, from);
    assert(from < text.len());
    if stands_at(text, pattern, from) {
        let rest = replaced(text, pattern, replacement, from + pattern.len());
        assert(result == replacement + rest);
        if at < replacement.len() {
            assert(clash(word, replacement, at));
            let i = choose|i: int|
                0 <= i < word.len() && 0 <= at + i < replacement.len() && #[trigger] word[i]
                    != replacement[at + i];
            assert(result.subrange(at, at + word.len())[i] == result[at + i]);
            assert(false);
            from
        } else {
            assert(rest.subrange(at - replacement.len(), at - replacement.len() + word.len())
                =~= result.subrange(at, at + word.len()));
            lemma_replaced_word(
                text,
                pattern,
                replacement,
                from + pattern.len(),
                word,
                at - replacement.len(),
            )
        }
    } else {
        let rest = replaced(text, pattern, replacement, from + 1);
        assert(result == seq![text[from]] + rest);
        if at > 0 {
            assert(rest.subrange(at - 1, at - 1 + word.len()) =~= result.subrange(
                at,
                at + word.len(),
            ));
            lemma_replaced_word(text, pattern, replacement, from + 1, word, at - 1)
        } else {
            lemma_replaced_front(text, pattern, replacement, from, word, word.len() as int);
            let front = text.subrange(from, from + word.len());
            assert forall|i: int| 0 <= i < word.len() implies front[i] == word[i] by {
                assert(text[from + i] == word[word.len() - word.len() + i]);
            }
            assert(front =~= word);
            from
        }
    }
}

/// The letters at the front of a text whose pattern was replaced, up to where a
/// word ends that cannot share a place with the replacement.
proof fn lemma_replaced_front(
    text: Seq<char>,
    pattern: Seq<char>,
    replacement: Seq<char>,
    from: int,
    word: Seq<char>,
    count: int,
)
    requires
        0 <= from,
        pattern.len() > 0,
        0 < count <= word.len(),
        apart(word, replacement),
        replaced(text, pattern, replacement, from).len() >= count,
        !stands_at(text, pattern, from) || count < word.len(),
        forall|i: int|
            0 <= i < count ==> #[trigger] replaced(text, pattern, replacement, from)[i]
                == word[word.len() - count + i],
    ensures
        from + count <= text.len(),
        forall|i: int| 0 <= i < count ==> #[trigger] text[from + i] == word[word.len() - count + i],
    decreases count,
{
    let result = replaced(text, pattern, replacement, from);
    assert(from < text.len());
    let start = word.len() - count;
    if stands_at(text, pattern, from) {
        let rest = replaced(text, pattern, replacement, from + pattern.len());
        assert(result == replacement + rest);
        assert(clash(word, replacement, -start));
        let i = choose|i: int|
            0 <= i < word.len() && 0 <= -start + i < replacement.len() && #[trigger] word[i]
                != replacement[-start + i];
        assert(result[i - start] == word[start + (i - start)]);
        assert(false);
    } else {
        let rest = replaced(text, pattern, replacement, from + 1);
        assert(result == seq![text[from]] + rest);
        assert(result[0] == word[start]);
        if count > 1 {
            assert forall|i: int| 0 <= i < count - 1 implies #[trigger] rest[i] == word[word.len()
                - (count - 1) + i] by {
                assert(result[i + 1] == word[start + (i + 1)]);
            }
            lemma_replaced_front(text, pattern, replacement, from + 1, word, count - 1);
        }
        assert forall|i: int| 0 <= i < count implies #[trigger] text[from + i] == word[start
            + i] by {
            if i > 0 {
                assert(text[from + 1 + (i - 1)] == word[word.len() - (count - 1) + (i - 1)]);
            }
        }
    }
}

proof fn lemma_cleared(text: Seq<char>, secrets: Seq<Seq<char>>, count: int, secret: Seq<char>)
    requires
        0 <= count <= secrets.len(),
        secret.len() > 0,
        apart(secret, "[REDACTED]"@),
        occurs(cleared(text, secrets, count), secret),
    ensures
        forall|i: int| 0 <= i < count ==> #[trigger] secrets[i] != secret,
    decreases count,
{
    if count > 0 {
        let before = cleared(text, secrets, count - 1);
        if secrets[count - 1].len() > 0 {
            let after = cleared(text, secrets, count);
            let at = choose|at: int| 0 <= at && #[trigger] stands_at(after, secret, at);
            let place = lemma_replaced_word(
                before,
                secrets[count - 1],
                "[REDACTED]"@,
                0,
                secret,
                at,
            );
            assert(stands_at(before, secret, place));
        }
        lemma_cleared(text, secrets, count - 1, secret);
    }
}

/// The message of an error holds no text that is known to be secret, unless the
/// mark that stands for secrets could itself be taken for a part of it.
pub proof fn law_messages_hold_no_secret(
    message: Seq<char>,
    span: Span,
    frame: FrameModel,
    progress: ProgressModel,
    secret: Seq<char>,
)
    requires
        progress.secrets.contains(secret),
        secret.len() > 0,
        apart(secret, "[REDACTED]"@),
    ensures
        !occurs(error_at(message, span, frame, progress).message, secret),
{
    let secrets = progress.secrets;
    if occurs(error_at(message, span, frame, progress).message, secret) {
        lemma_cleared(message, secrets, secrets.len() as int, secret);
        let i = choose|i: int| 0 <= i < secrets.len() && secrets[i] == secret;
        assert(false);
    }
}

/// What was known to be secret stays known, and every new text that is not
/// empty becomes known.
pub proof fn law_secrets_are_kept(secrets: Seq<Seq<char>>, texts: Seq<Seq<char>>, secret: Seq<char>)
    ensures
        joined_secrets(secrets, texts, 0).contains(secret) <==> secrets.contains(secret) || (
        secret.len() > 0 && texts.contains(secret)),
{
    lemma_joined(secrets, texts, 0, secret);
    assert(texts.skip(0) =~= texts);
}

proof fn lemma_joined(
    secrets: Seq<Seq<char>>,
    texts: Seq<Seq<char>>,
    from: int,
    secret: Seq<char>,
)
    requires
        0 <= from <= texts.len(),
    ensures
        joined_secrets(secrets, texts, from).contains(secret) <==> secrets.contains(secret) || (
        secret.len() > 0 && texts.skip(from).contains(secret)),
    decreases texts.len() - from,
{
    let rest = texts.skip(from);
    if from < texts.len() {
        let text = texts[from];
        let next = if text.len() == 0 || secrets.contains(text) {
            secrets
        } else {
            secrets.push(text)
        };
        lemma_joined(next, texts, from + 1, secret);
        let last = texts.skip(from + 1);
        assert(rest =~= seq![text] + last);
        assert(rest.contains(secret) <==> secret == text || last.contains(secret)) by {
            if secret == text {
                assert(rest[0] == secret);
            }
            if last.contains(secret) {
                let i = choose|i: int| 0 <= i < last.len() && last[i] == secret;
                assert(rest[i + 1] == secret);
            }
        }
        assert(secrets.push(text).contains(secret) <==> secrets.contains(secret) || secret
            == text) by {
            if secret == text {
                assert(secrets.push(text)[secrets.len() as int] == secret);
            }
            if secrets.contains(secret) {
                let i = choose|i: int| 0 <= i < secrets.len() && secrets[i] == secret;
                assert(secrets.push(text)[i] == secret);
            }
        }
    } else {
        assert(rest.len() == 0);
    }
}

} // verus!
