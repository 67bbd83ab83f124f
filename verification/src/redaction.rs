//! Keeps sensitive texts out of messages.

use vstd::prelude::*;
use vstd::string::*;

use crate::text::{chars_of, listed, no_text, views};

verus! {

/// Whether the pattern stands in the text at `from`.
pub open spec fn stands_at(text: Seq<char>, pattern: Seq<char>, from: int) -> bool {
    from + pattern.len() <= text.len() && text.subrange(from, from + pattern.len()) == pattern
}

/// The text from `from` on with every occurrence of the pattern, from the left
/// on and without overlaps, replaced.
pub open spec fn replaced(
    text: Seq<char>,
    pattern: Seq<char>,
    replacement: Seq<char>,
    from: int,
) -> Seq<char>
    decreases text.len() - from,
{
    if from < 0 || from >= text.len() || pattern.len() == 0 {
        Seq::empty()
    } else if stands_at(text, pattern, from) {
        replacement + replaced(text, pattern, replacement, from + pattern.len())
    } else {
        seq![text[from]] + replaced(text, pattern, replacement, from + 1)
    }
}

fn found_at(text: &Vec<char>, pattern: &Vec<char>, from: usize) -> (yes: bool)
    requires
        from <= text@.len(),
    ensures
        yes == stands_at(text@, pattern@, from as int),
{
    let total: usize = text.len();
    if pattern.len() > total - from {
        return false;
    }
    let mut at: usize = 0;
    while at < pattern.len()
        invariant
            at <= pattern@.len(),
            total == text@.len(),
            from + pattern@.len() <= total,
            forall|i: int| 0 <= i < at ==> #[trigger] pattern@[i] == text@[from + i],
        decreases pattern@.len() - at,
    {
        if text[from + at] != pattern[at] {
            proof {
                assert(text@.subrange(from as int, from + pattern@.len())[at as int]
                    != pattern@[at as int]);
            }
            return false;
        }
        at += 1;
    }
    proof {
        assert(text@.subrange(from as int, from + pattern@.len()) =~= pattern@);
    }
    true
}

/// Replaces every occurrence of the pattern.
pub fn replace(text: &str, pattern: &str, replacement: &str) -> (result: String)
    requires
        pattern@.len() > 0,
    ensures
        result@ == replaced(text@, pattern@, replacement@, 0),
{
    let chars: Vec<char> = chars_of(text);
    let sought: Vec<char> = chars_of(pattern);
    let mut result: String = no_text();
    let mut at: usize = 0;
    proof {
        assert(result@ + replaced(text@, pattern@, replacement@, 0) =~= replaced(
            text@,
            pattern@,
            replacement@,
            0,
        ));
    }
    while at < chars.len()
        invariant
            chars@ == text@,
            sought@ == pattern@,
            pattern@.len() > 0,
            at <= chars@.len(),
            result@ + replaced(text@, pattern@, replacement@, at as int) == replaced(
                text@,
                pattern@,
                replacement@,
                0,
            ),
        decreases chars@.len() - at,
    {
        let ghost held = result@;
        if found_at(&chars, &sought, at) {
            result.append(replacement);
            proof {
                let rest = replaced(text@, pattern@, replacement@, at + pattern@.len());
                assert(held + (replacement@ + rest) =~= (held + replacement@) + rest);
            }
            at += sought.len();
        } else {
            result.push(chars[at]);
            proof {
                let rest = replaced(text@, pattern@, replacement@, at + 1);
                assert(held + (seq![text@[at as int]] + rest) =~= held.push(text@[at as int])
                    + rest);
            }
            at += 1;
        }
    }
    proof {
        assert(result@ + Seq::<char>::empty() =~= result@);
    }
    result
}

/// The text with the first `count` secrets taken out.
pub open spec fn cleared(text: Seq<char>, secrets: Seq<Seq<char>>, count: int) -> Seq<char>
    decreases count,
{
    if count <= 0 {
        text
    } else if secrets[count - 1].len() == 0 {
        cleared(text, secrets, count - 1)
    } else {
        replaced(
            cleared(text, secrets, count - 1),
            secrets[count - 1],
            "[REDACTED]"@,
            0,
        )
    }
}

/// Takes the secrets out of a message.
pub fn clear(message: String, secrets: &Vec<String>) -> (result: String)
    ensures
        result@ == cleared(message@, views(secrets@), secrets@.len() as int),
{
    let ghost all = views(secrets@);
    let ghost start = message@;
    let mut result: String = message;
    let mut at: usize = 0;
    while at < secrets.len()
        invariant
            all == views(secrets@),
            at <= secrets@.len(),
            result@ == cleared(start, all, at as int),
        decreases secrets@.len() - at,
    {
        let secret: Vec<char> = chars_of(secrets[at].as_str());
        if secret.len() > 0 {
            result = replace(result.as_str(), secrets[at].as_str(), "[REDACTED]");
        }
        at += 1;
    }
    result
}

/// The secrets with the texts from `from` on that are new and not empty.
pub open spec fn joined_secrets(
    secrets: Seq<Seq<char>>,
    texts: Seq<Seq<char>>,
    from: int,
) -> Seq<Seq<char>>
    decreases texts.len() - from,
{
    if from < 0 || from >= texts.len() {
        secrets
    } else {
        joined_secrets(
            if texts[from].len() == 0 || secrets.contains(texts[from]) {
                secrets
            } else {
                secrets.push(texts[from])
            },
            texts,
            from + 1,
        )
    }
}

/// Keeps the texts that are new and not empty.
pub fn keep_secrets(secrets: &mut Vec<String>, texts: &Vec<String>)
    ensures
        views(final(secrets)@) == joined_secrets(views(old(secrets)@), views(texts@), 0),
{
    let ghost given = views(texts@);
    let ghost start = views(secrets@);
    let mut at: usize = 0;
    while at < texts.len()
        invariant
            given == views(texts@),
            at <= texts@.len(),
            joined_secrets(start, given, 0) == joined_secrets(
                views(secrets@),
                given,
                at as int,
            ),
        decreases texts@.len() - at,
    {
        let letters: Vec<char> = chars_of(texts[at].as_str());
        if letters.len() > 0 && !listed(secrets, texts[at].as_str()) {
            let ghost before = views(secrets@);
            secrets.push(texts[at].clone());
            proof {
                assert(views(secrets@) =~= before.push(texts@[at as int]@));
            }
        }
        at += 1;
    }
}

} // verus!
