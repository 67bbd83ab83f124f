//! Files with environment variables.

use vstd::prelude::*;
use vstd::string::*;

use crate::capability::pair_models;
use crate::execution::variable;
use crate::plan::optional_text;
use crate::text::{
    begins_with, chars_of, decimal, decimal_text, digit_char, find_char, is_digit, is_letter,
    is_space, letter_char, no_text, position_of, same, space_char, split_at, split_once,
    strip_prefix, text_between, trim, trim_end, trim_start, trimmed, trimmed_end, trimmed_start,
    wrapped,
};

verus! {

// ---------------------------------------------------------------------------
// Variables

/// The variables with one more, which takes the place of one of its name.
pub open spec fn entered(
    values: Seq<(Seq<char>, Seq<char>)>,
    name: Seq<char>,
    value: Seq<char>,
    from: int,
) -> Seq<(Seq<char>, Seq<char>)>
    decreases values.len() - from,
{
    if from < 0 || from >= values.len() {
        values.push((name, value))
    } else if values[from].0 == name {
        values.update(from, (name, value))
    } else {
        entered(values, name, value, from + 1)
    }
}

/// The variables with others, from `from` on, which take the place of those of
/// their names.
pub open spec fn overlaid(
    values: Seq<(Seq<char>, Seq<char>)>,
    others: Seq<(Seq<char>, Seq<char>)>,
    from: int,
) -> Seq<(Seq<char>, Seq<char>)>
    decreases others.len() - from,
{
    if from < 0 || from >= others.len() {
        values
    } else {
        overlaid(entered(values, others[from].0, others[from].1, 0), others, from + 1)
    }
}

/// Sets a variable.
pub fn enter(values: &mut Vec<(String, String)>, name: String, value: String)
    ensures
        pair_models(final(values)@) == entered(
            pair_models(old(values)@),
            name@,
            value@,
            0,
        ),
{
    let ghost before = values@;
    let ghost models = pair_models(values@);
    let mut at: usize = 0;
    while at < values.len()
        invariant
            values@ == before,
            before == old(values)@,
            models == pair_models(before),
            at <= before.len(),
            entered(models, name@, value@, 0) == entered(models, name@, value@, at as int),
        decreases before.len() - at,
    {
        proof {
            assert(models[at as int] == (before[at as int].0@, before[at as int].1@));
        }
        if same(values[at].0.as_str(), name.as_str()) {
            values.set(at, (name, value));
            proof {
                assert(pair_models(values@) =~= models.update(at as int, (name@, value@)));
            }
            return;
        }
        at += 1;
    }
    values.push((name, value));
    proof {
        assert(pair_models(values@) =~= models.push((name@, value@)));
    }
}

/// Lays the variables of the process over those of files.
pub fn overlay(values: &mut Vec<(String, String)>, others: &Vec<(String, String)>)
    ensures
        pair_models(final(values)@) == overlaid(
            pair_models(old(values)@),
            pair_models(others@),
            0,
        ),
{
    let ghost first = pair_models(values@);
    let ghost models = pair_models(others@);
    let mut at: usize = 0;
    while at < others.len()
        invariant
            models == pair_models(others@),
            at <= others@.len(),
            overlaid(first, models, 0) == overlaid(
                pair_models(values@),
                models,
                at as int,
            ),
        decreases others@.len() - at,
    {
        proof {
            assert(models[at as int] == (others@[at as int].0@, others@[at as int].1@));
        }
        enter(values, others[at].0.clone(), others[at].1.clone());
        at += 1;
    }
}

// ---------------------------------------------------------------------------
// Lines

/// Whether a variable may have a name.
pub open spec fn is_name(name: Seq<char>) -> bool {
    &&& name.len() > 0
    &&& !is_digit(name[0])
    &&& forall|i: int|
        0 <= i < name.len() ==> is_letter(#[trigger] name[i]) || is_digit(name[i]) || name[i] == '_'
}

fn valid_name(name: &str) -> (yes: bool)
    ensures
        yes == is_name(name@),
{
    let chars: Vec<char> = chars_of(name);
    if chars.len() == 0 || digit_char(chars[0]) {
        return false;
    }
    let mut at: usize = 0;
    while at < chars.len()
        invariant
            chars@ == name@,
            at <= chars@.len(),
            forall|i: int|
                0 <= i < at ==> is_letter(#[trigger] name@[i]) || is_digit(name@[i]) || name@[i]
                    == '_',
        decreases chars@.len() - at,
    {
        let c: char = chars[at];
        if !letter_char(c) && !digit_char(c) && c != '_' {
            proof {
                assert(name@[at as int] == c);
            }
            return false;
        }
        at += 1;
    }
    true
}

/// What an escape stands for.
pub open spec fn unescaped(c: char) -> Seq<char> {
    if c == 'n' {
        seq!['\n']
    } else if c == 'r' {
        seq!['\r']
    } else if c == 't' {
        seq!['\t']
    } else if c == '"' {
        seq!['"']
    } else if c == '\\' {
        seq!['\\']
    } else {
        seq!['\\', c]
    }
}

/// The value up to the quote that ends it. Behind it only a comment may follow.
pub open spec fn quoted_value(text: Seq<char>, quote: char, from: int, done: Seq<char>) -> Result<
    Seq<char>,
    Seq<char>,
>
    decreases text.len() - from,
{
    if from < 0 || from >= text.len() {
        Err("unterminated quoted value"@)
    } else if text[from] == quote {
        let trailing = trimmed_start(text.skip(from + 1));
        if trailing.len() == 0 || trailing[0] == '#' {
            Ok(done)
        } else {
            Err("unexpected text after quoted value"@)
        }
    } else if quote == '"' && text[from] == '\\' {
        if from + 1 >= text.len() {
            Err("unterminated escape in quoted value"@)
        } else {
            quoted_value(text, quote, from + 2, done + unescaped(text[from + 1]))
        }
    } else {
        quoted_value(text, quote, from + 1, done.push(text[from]))
    }
}

/// Where a comment begins behind a value without quotes, from `from` on.
pub open spec fn comment_at(text: Seq<char>, from: int) -> int
    decreases text.len() - from,
{
    if from < 0 || from >= text.len() {
        text.len() as int
    } else if text[from] == '#' && (from == 0 || is_space(text[from - 1])) {
        from
    } else {
        comment_at(text, from + 1)
    }
}

/// The value behind the equals sign.
pub open spec fn line_value(raw: Seq<char>) -> Result<Seq<char>, Seq<char>> {
    if raw.len() > 0 && raw[0] == '"' {
        quoted_value(raw.skip(1), '"', 0, Seq::empty())
    } else if raw.len() > 0 && raw[0] == '\'' {
        quoted_value(raw.skip(1), '\'', 0, Seq::empty())
    } else {
        Ok(trimmed_end(raw.take(comment_at(raw, 0))))
    }
}

/// The variable that a line sets, if any.
pub open spec fn line_entry(line: Seq<char>) -> Result<
    Option<(Seq<char>, Seq<char>)>,
    Seq<char>,
> {
    let solid = trimmed_start(line);
    if solid.len() == 0 || solid[0] == '#' {
        Ok(None)
    } else {
        let plain = if begins_with(solid, "export "@) {
            solid.skip("export "@.len() as int)
        } else {
            solid
        };
        match split_at(plain, '=') {
            None => Err("expected `NAME=value`"@),
            Some((name, raw)) => if !is_name(trimmed(name)) {
                Err(
                    "environment variable name must use letters, digits, or `_` and cannot start with a digit"@,
                )
            } else {
                match line_value(trimmed_start(raw)) {
                    Ok(value) => Ok(Some((trimmed(name), value))),
                    Err(message) => Err(message),
                }
            },
        }
    }
}

pub open spec fn text_result(result: Result<String, &'static str>) -> Result<
    Seq<char>,
    Seq<char>,
> {
    match result {
        Ok(text) => Ok(text@),
        Err(message) => Err(message@),
    }
}

fn push_escape(output: &mut String, c: char)
    ensures
        final(output)@ == old(output)@ + unescaped(c),
{
    let ghost before = output@;
    if c == 'n' {
        output.push('\n');
    } else if c == 'r' {
        output.push('\r');
    } else if c == 't' {
        output.push('\t');
    } else if c == '"' {
        output.push('"');
    } else if c == '\\' {
        output.push('\\');
    } else {
        output.push('\\');
        output.push(c);
    }
    proof {
        assert(output@ =~= before + unescaped(c));
    }
}

/// Reads a value up to the quote that ends it.
pub fn parse_quoted(text: &str, quote: char) -> (result: Result<String, &'static str>)
    ensures
        text_result(result) == quoted_value(text@, quote, 0, Seq::empty()),
{
    let chars: Vec<char> = chars_of(text);
    let mut output: String = no_text();
    let mut at: usize = 0;
    while at < chars.len()
        invariant
            chars@ == text@,
            at <= chars@.len(),
            quoted_value(text@, quote, 0, Seq::empty()) == quoted_value(
                text@,
                quote,
                at as int,
                output@,
            ),
        decreases chars@.len() - at,
    {
        let c: char = chars[at];
        let total: usize = chars.len();
        if c == quote {
            let rest: String = text_between(&chars, at + 1, total);
            proof {
                assert(rest@ =~= text@.skip(at + 1));
            }
            let trailing: Vec<char> = chars_of(trim_start(rest.as_str()).as_str());
            if trailing.len() == 0 || trailing[0] == '#' {
                return Ok(output);
            }
            return Err("unexpected text after quoted value");
        }
        if quote == '"' && c == '\\' {
            if total - at <= 1 {
                return Err("unterminated escape in quoted value");
            }
            push_escape(&mut output, chars[at + 1]);
            at += 2;
        } else {
            output.push(c);
            at += 1;
        }
    }
    Err("unterminated quoted value")
}

fn find_comment(chars: &Vec<char>) -> (at: usize)
    ensures
        at == comment_at(chars@, 0),
        at <= chars@.len(),
{
    let mut at: usize = 0;
    while at < chars.len()
        invariant
            at <= chars@.len(),
            comment_at(chars@, 0) == comment_at(chars@, at as int),
        decreases chars@.len() - at,
    {
        if chars[at] == '#' && (at == 0 || space_char(chars[at - 1])) {
            return at;
        }
        at += 1;
    }
    at
}

fn parse_line_value(raw: &str) -> (result: Result<String, &'static str>)
    ensures
        text_result(result) == line_value(raw@),
{
    let chars: Vec<char> = chars_of(raw);
    if chars.len() > 0 && (chars[0] == '"' || chars[0] == '\'') {
        let rest: String = text_between(&chars, 1, chars.len());
        proof {
            assert(rest@ =~= raw@.skip(1));
        }
        return parse_quoted(rest.as_str(), chars[0]);
    }
    let end: usize = find_comment(&chars);
    let value: String = text_between(&chars, 0, end);
    proof {
        assert(value@ =~= raw@.take(end as int));
    }
    Ok(trim_end(value.as_str()))
}

pub open spec fn entry_result(result: Result<Option<(String, String)>, &'static str>) -> Result<
    Option<(Seq<char>, Seq<char>)>,
    Seq<char>,
> {
    match result {
        Ok(Some((name, value))) => Ok(Some((name@, value@))),
        Ok(None) => Ok(None),
        Err(message) => Err(message@),
    }
}

/// Reads the variable that a line sets.
pub fn parse_line(line: &str) -> (result: Result<Option<(String, String)>, &'static str>)
    ensures
        entry_result(result) == line_entry(line@),
{
    let solid: String = trim_start(line);
    let chars: Vec<char> = chars_of(solid.as_str());
    if chars.len() == 0 || chars[0] == '#' {
        return Ok(None);
    }
    let plain: String = match strip_prefix(solid.as_str(), "export ") {
        Some(rest) => rest,
        None => solid,
    };
    match split_once(plain.as_str(), '=') {
        None => Err("expected `NAME=value`"),
        Some((name, raw)) => {
            let name: String = trim(name.as_str());
            if !valid_name(name.as_str()) {
                return Err(
                    "environment variable name must use letters, digits, or `_` and cannot start with a digit",
                );
            }
            match parse_line_value(trim_start(raw.as_str()).as_str()) {
                Ok(value) => Ok(Some((name, value))),
                Err(message) => Err(message),
            }
        },
    }
}

// ---------------------------------------------------------------------------
// Files

/// The line from `from` up to `end`, without the carriage return of a line that
/// ends there.
pub open spec fn line_between(text: Seq<char>, from: int, end: int) -> Seq<char> {
    if end < text.len() && from < end && text[end - 1] == '\r' {
        text.subrange(from, end - 1)
    } else {
        text.subrange(from, end)
    }
}

/// The line on which a name was set, from `from` on.
pub open spec fn declared_on(declared: Seq<(Seq<char>, nat)>, name: Seq<char>, from: int) -> Option<
    nat,
>
    decreases declared.len() - from,
{
    if from < 0 || from >= declared.len() {
        None
    } else if declared[from].0 == name {
        Some(declared[from].1)
    } else {
        declared_on(declared, name, from + 1)
    }
}

/// What the lines from `from` on set: the error, if any, and the variables up
/// to there.
pub open spec fn entries_from(
    path: Seq<char>,
    text: Seq<char>,
    from: int,
    number: nat,
    declared: Seq<(Seq<char>, nat)>,
    values: Seq<(Seq<char>, Seq<char>)>,
) -> (Option<Seq<char>>, Seq<(Seq<char>, Seq<char>)>)
    decreases text.len() - from,
    when 0 <= from <= text.len()
    via entries_from_ends
{
    if from >= text.len() {
        (None, values)
    } else {
        let end = position_of(text, '\n', from);
        let next = if end < text.len() {
            end + 1
        } else {
            end
        };
        let start = path + ":"@ + decimal(number) + ": "@;
        match line_entry(line_between(text, from, end)) {
            Err(message) => (Some(start + message), values),
            Ok(None) => entries_from(path, text, next, number + 1, declared, values),
            Ok(Some((name, value))) => match declared_on(declared, name, 0) {
                Some(first) => (
                    Some(
                        start + "`"@ + name + "` was already defined on line "@ + decimal(first),
                    ),
                    values,
                ),
                None => entries_from(
                    path,
                    text,
                    next,
                    number + 1,
                    declared.push((name, number)),
                    entered(values, name, value, 0),
                ),
            },
        }
    }
}

#[via_fn]
proof fn entries_from_ends(
    path: Seq<char>,
    text: Seq<char>,
    from: int,
    number: nat,
    declared: Seq<(Seq<char>, nat)>,
    values: Seq<(Seq<char>, Seq<char>)>,
) {
    crate::text::lemma_position_of(text, '\n', from);
}

/// Where the text begins behind byte order marks, from `from` on.
pub open spec fn behind_marks(text: Seq<char>, from: int) -> int
    decreases text.len() - from,
{
    if 0 <= from < text.len() && text[from] == '\u{feff}' {
        behind_marks(text, from + 1)
    } else {
        from
    }
}

/// What a file sets.
pub open spec fn file_entries(
    path: Seq<char>,
    contents: Seq<char>,
    values: Seq<(Seq<char>, Seq<char>)>,
) -> (Option<Seq<char>>, Seq<(Seq<char>, Seq<char>)>) {
    let text = contents.skip(behind_marks(contents, 0));
    entries_from(path, text, 0, 1, Seq::empty(), values)
}

pub open spec fn declared_models(declared: Seq<(String, u128)>) -> Seq<(Seq<char>, nat)> {
    Seq::new(declared.len(), |i: int| (declared[i].0@, declared[i].1 as nat))
}

fn find_declared(declared: &Vec<(String, u128)>, name: &str) -> (line: Option<u128>)
    ensures
        (match line {
            Some(line) => Some(line as nat),
            None => None,
        }) == declared_on(declared_models(declared@), name@, 0),
{
    let ghost models = declared_models(declared@);
    let mut at: usize = 0;
    while at < declared.len()
        invariant
            models == declared_models(declared@),
            at <= declared@.len(),
            declared_on(models, name@, 0) == declared_on(models, name@, at as int),
        decreases declared@.len() - at,
    {
        proof {
            assert(models[at as int] == (declared@[at as int].0@, declared@[at as int].1 as nat));
        }
        if same(declared[at].0.as_str(), name) {
            return Some(declared[at].1);
        }
        at += 1;
    }
    None
}

fn place_text(path: &str, number: u128) -> (text: String)
    ensures
        text@ == path@ + ":"@ + decimal(number as nat) + ": "@,
{
    let mut text: String = path.to_owned();
    text.append(":");
    text.append(decimal_text(number).as_str());
    text.append(": ");
    text
}

pub open spec fn outcome(result: Result<(), String>) -> Option<Seq<char>> {
    match result {
        Ok(_) => None,
        Err(message) => Some(message@),
    }
}

/// Reads the variables that a file sets.
pub fn parse_file(path: &str, contents: &str, values: &mut Vec<(String, String)>) -> (result: Result<
    (),
    String,
>)
    ensures
        (outcome(result), pair_models(final(values)@)) == file_entries(
            path@,
            contents@,
            pair_models(old(values)@),
        ),
{
    let all: Vec<char> = chars_of(contents);
    let mut start: usize = 0;
    while start < all.len() && all[start] == '\u{feff}'
        invariant
            start <= all@.len(),
            behind_marks(all@, 0) == behind_marks(all@, start as int),
        decreases all@.len() - start,
    {
        start += 1;
    }
    let chars: Vec<char> = chars_of(text_between(&all, start, all.len()).as_str());
    let ghost text = chars@;
    let ghost first = pair_models(values@);
    proof {
        assert(text =~= contents@.skip(behind_marks(contents@, 0)));
    }
    let mut declared: Vec<(String, u128)> = Vec::new();
    let mut from: usize = 0;
    let mut number: u128 = 1;
    proof {
        assert(declared_models(declared@) =~= Seq::empty());
    }
    while from < chars.len()
        invariant
            chars@ == text,
            text == contents@.skip(behind_marks(contents@, 0)),
            first == pair_models(old(values)@),
            from <= chars@.len(),
            1 <= number <= from + 1,
            entries_from(path@, text, 0, 1, Seq::empty(), first) == entries_from(
                path@,
                text,
                from as int,
                number as nat,
                declared_models(declared@),
                pair_models(values@),
            ),
        decreases chars@.len() - from,
    {
        let end: usize = find_char(&chars, '\n', from);
        let total: usize = chars.len();
        let stop: usize = if end < total && from < end && chars[end - 1] == '\r' {
            end - 1
        } else {
            end
        };
        let line: String = text_between(&chars, from, stop);
        let next: usize = if end < total {
            end + 1
        } else {
            end
        };
        match parse_line(line.as_str()) {
            Err(message) => {
                let mut text: String = place_text(path, number);
                text.append(message);
                return Err(text);
            },
            Ok(None) => {},
            Ok(Some((name, value))) => {
                match find_declared(&declared, name.as_str()) {
                    Some(first) => {
                        let mut text: String = place_text(path, number);
                        text.append("`");
                        text.append(name.as_str());
                        text.append("` was already defined on line ");
                        text.append(decimal_text(first).as_str());
                        return Err(text);
                    },
                    None => {},
                }
                let ghost before = declared@;
                declared.push((name.clone(), number));
                proof {
                    assert(declared_models(declared@) =~= declared_models(before).push(
                        (name@, number as nat),
                    ));
                }
                enter(values, name, value);
            },
        }
        from = next;
        number = number + 1;
    }
    Ok(())
}

/// What is said where a profile has no file.
pub open spec fn missing(profile: Seq<char>) -> Seq<char> {
    "profile `"@ + profile + "` was selected, but no `.env."@ + profile
        + "` exists beside the entry file or at the project root"@
}

pub fn missing_profile(profile: &str) -> (message: String)
    ensures
        message@ == missing(profile@),
{
    let start: String = wrapped("profile `", profile, "` was selected, but no `.env.");
    wrapped(start.as_str(), profile, "` exists beside the entry file or at the project root")
}

// ---------------------------------------------------------------------------
// Several files

/// A file that may hold variables: its text, if there is such a file, or why it
/// cannot be read.
pub struct EnvironmentFile {
    pub path: String,
    pub text: Result<Option<String>, String>,
}

pub struct EnvironmentFileModel {
    pub path: Seq<char>,
    pub text: Result<Option<Seq<char>>, Seq<char>>,
}

impl EnvironmentFile {
    pub open spec fn model(self) -> EnvironmentFileModel {
        EnvironmentFileModel {
            path: self.path@,
            text: match self.text {
                Ok(text) => Ok(optional_text(text)),
                Err(message) => Err(message@),
            },
        }
    }
}

pub open spec fn file_models(files: Seq<EnvironmentFile>) -> Seq<EnvironmentFileModel> {
    Seq::new(files.len(), |i: int| files[i].model())
}

/// The variables with those of the files from `from` on, and whether there is
/// one of these files, or was one before.
pub open spec fn all_entries(
    files: Seq<EnvironmentFileModel>,
    from: int,
    found: bool,
    values: Seq<(Seq<char>, Seq<char>)>,
) -> Result<(bool, Seq<(Seq<char>, Seq<char>)>), Seq<char>>
    decreases files.len() - from,
{
    if from < 0 || from >= files.len() {
        Ok((found, values))
    } else {
        match files[from].text {
            Err(message) => Err(message),
            Ok(None) => all_entries(files, from + 1, found, values),
            Ok(Some(text)) => match file_entries(files[from].path, text, values) {
                (Some(message), _) => Err(message),
                (None, more) => all_entries(files, from + 1, true, more),
            },
        }
    }
}

/// The variables that a run sees: those of the plain files in their order, then
/// those of the files of the profile, then those of the process.
pub open spec fn environment(
    plain: Seq<EnvironmentFileModel>,
    profile: Option<Seq<char>>,
    profiled: Seq<EnvironmentFileModel>,
    process: Seq<(Seq<char>, Seq<char>)>,
) -> Result<Seq<(Seq<char>, Seq<char>)>, Seq<char>> {
    match all_entries(plain, 0, false, Seq::empty()) {
        Err(message) => Err(message),
        Ok((_, values)) => match profile {
            None => Ok(overlaid(values, process, 0)),
            Some(name) => match all_entries(profiled, 0, false, values) {
                Err(message) => Err(message),
                Ok((found, more)) => if found {
                    Ok(overlaid(more, process, 0))
                } else {
                    Err(missing(name))
                },
            },
        },
    }
}

/// Reads the variables of files. Tells whether there is one of these files.
fn read_files(files: &Vec<EnvironmentFile>, values: &mut Vec<(String, String)>) -> (result: Result<
    bool,
    String,
>)
    ensures
        match all_entries(file_models(files@), 0, false, pair_models(old(values)@)) {
            Ok((found, entries)) => result == Ok::<bool, String>(found) && pair_models(
                final(values)@,
            ) == entries,
            Err(message) => result matches Err(told) && told@ == message,
        },
{
    let ghost models = file_models(files@);
    let ghost first = pair_models(values@);
    let mut found: bool = false;
    let mut at: usize = 0;
    while at < files.len()
        invariant
            models == file_models(files@),
            first == pair_models(old(values)@),
            at <= files@.len(),
            all_entries(models, 0, false, first) == all_entries(
                models,
                at as int,
                found,
                pair_models(values@),
            ),
        decreases files@.len() - at,
    {
        let file: &EnvironmentFile = &files[at];
        proof {
            assert(models[at as int] == file.model());
        }
        match &file.text {
            Err(message) => {
                return Err(message.clone());
            },
            Ok(None) => {},
            Ok(Some(text)) => {
                match parse_file(file.path.as_str(), text.as_str(), values) {
                    Ok(_) => {},
                    Err(message) => {
                        return Err(message);
                    },
                }
                found = true;
            },
        }
        at += 1;
    }
    Ok(found)
}

/// The variables that a run sees.
pub fn load_environment(
    plain: &Vec<EnvironmentFile>,
    profile: Option<&str>,
    profiled: &Vec<EnvironmentFile>,
    process: &Vec<(String, String)>,
) -> (result: Result<Vec<(String, String)>, String>)
    ensures
        ({
            let name = match profile {
                Some(name) => Some(name@),
                None => None,
            };
            match environment(
                file_models(plain@),
                name,
                file_models(profiled@),
                pair_models(process@),
            ) {
                Ok(values) => result matches Ok(found) && pair_models(found@) == values,
                Err(message) => result matches Err(told) && told@ == message,
            }
        }),
{
    let mut values: Vec<(String, String)> = Vec::new();
    proof {
        assert(pair_models(values@) =~= Seq::empty());
    }
    match read_files(plain, &mut values) {
        Ok(_) => {},
        Err(message) => {
            return Err(message);
        },
    }
    if let Some(name) = profile {
        match read_files(profiled, &mut values) {
            Ok(found) => if !found {
                return Err(missing_profile(name));
            },
            Err(message) => {
                return Err(message);
            },
        }
    }
    overlay(&mut values, process);
    Ok(values)
}

// ---------------------------------------------------------------------------
// Laws

proof fn lemma_entered(
    values: Seq<(Seq<char>, Seq<char>)>,
    name: Seq<char>,
    value: Seq<char>,
    other: Seq<char>,
    from: int,
)
    requires
        0 <= from <= values.len(),
        forall|i: int| 0 <= i < from ==> (#[trigger] values[i]).0 != name,
    ensures
        variable(entered(values, name, value, from), other, from) == (if other == name {
            Some(value)
        } else {
            variable(values, other, from)
        }),
    decreases values.len() - from,
{
    let result = entered(values, name, value, from);
    if from == values.len() {
        assert(result[from] == (name, value));
        if other != name {
            assert(variable(result, other, from + 1) is None);
        }
    } else if values[from].0 == name {
        if other != name {
            lemma_same_rest(result, values, other, from + 1);
        }
    } else {
        lemma_entered(values, name, value, other, from + 1);
        lemma_entered_keeps(values, name, value, from + 1, from);
    }
}

proof fn lemma_entered_keeps(
    values: Seq<(Seq<char>, Seq<char>)>,
    name: Seq<char>,
    value: Seq<char>,
    from: int,
    at: int,
)
    requires
        0 <= at < from <= values.len(),
    ensures
        entered(values, name, value, from)[at] == values[at],
        entered(values, name, value, from).len() >= values.len(),
    decreases values.len() - from,
{
    if from < values.len() && values[from].0 != name {
        lemma_entered_keeps(values, name, value, from + 1, at);
    }
}

proof fn lemma_same_rest(
    first: Seq<(Seq<char>, Seq<char>)>,
    second: Seq<(Seq<char>, Seq<char>)>,
    name: Seq<char>,
    from: int,
)
    requires
        0 <= from <= first.len(),
        first.len() == second.len(),
        forall|i: int| from <= i < first.len() ==> first[i] == second[i],
    ensures
        variable(first, name, from) == variable(second, name, from),
    decreases first.len() - from,
{
    if from < first.len() && first[from].0 != name {
        lemma_same_rest(first, second, name, from + 1);
    }
}

/// A variable that is set has the value that it was set to, and no other
/// changes.
pub proof fn law_entered(
    values: Seq<(Seq<char>, Seq<char>)>,
    name: Seq<char>,
    value: Seq<char>,
    other: Seq<char>,
)
    ensures
        variable(entered(values, name, value, 0), other, 0) == (if other == name {
            Some(value)
        } else {
            variable(values, other, 0)
        }),
{
    lemma_entered(values, name, value, other, 0);
}

proof fn lemma_overlaid(
    values: Seq<(Seq<char>, Seq<char>)>,
    others: Seq<(Seq<char>, Seq<char>)>,
    name: Seq<char>,
    from: int,
)
    requires
        0 <= from <= others.len(),
        forall|i: int, j: int|
            0 <= i < j < others.len() ==> (#[trigger] others[i]).0 != (#[trigger] others[j]).0,
    ensures
        variable(overlaid(values, others, from), name, 0) == (match variable(others, name, from) {
            Some(value) => Some(value),
            None => variable(values, name, 0),
        }),
    decreases others.len() - from,
{
    if from < others.len() {
        let next = entered(values, others[from].0, others[from].1, 0);
        law_entered(values, others[from].0, others[from].1, name);
        lemma_overlaid(next, others, name, from + 1);
        if others[from].0 == name {
            lemma_absent(others, name, from + 1);
        }
    }
}

proof fn lemma_absent(others: Seq<(Seq<char>, Seq<char>)>, name: Seq<char>, from: int)
    requires
        0 <= from <= others.len(),
        forall|i: int| from <= i < others.len() ==> (#[trigger] others[i]).0 != name,
    ensures
        variable(others, name, from) is None,
    decreases others.len() - from,
{
    if from < others.len() {
        lemma_absent(others, name, from + 1);
    }
}

/// A variable of the process counts before one of a file; where the process has
/// none the one of the file stays.
pub proof fn law_process_counts_first(
    values: Seq<(Seq<char>, Seq<char>)>,
    process: Seq<(Seq<char>, Seq<char>)>,
    name: Seq<char>,
)
    requires
        forall|i: int, j: int|
            0 <= i < j < process.len() ==> (#[trigger] process[i]).0 != (#[trigger] process[j]).0,
    ensures
        variable(overlaid(values, process, 0), name, 0) == (match variable(process, name, 0) {
            Some(value) => Some(value),
            None => variable(values, name, 0),
        }),
{
    lemma_overlaid(values, process, name, 0);
}

/// In every environment the variables of the process have the values that they
/// have there.
pub proof fn law_environment_keeps_the_process(
    plain: Seq<EnvironmentFileModel>,
    profile: Option<Seq<char>>,
    profiled: Seq<EnvironmentFileModel>,
    process: Seq<(Seq<char>, Seq<char>)>,
    name: Seq<char>,
)
    requires
        forall|i: int, j: int|
            0 <= i < j < process.len() ==> (#[trigger] process[i]).0 != (#[trigger] process[j]).0,
        variable(process, name, 0) is Some,
    ensures
        environment(plain, profile, profiled, process) matches Ok(values) ==> variable(
            values,
            name,
            0,
        ) == variable(process, name, 0),
{
    if let Ok((_, values)) = all_entries(plain, 0, false, Seq::empty()) {
        law_process_counts_first(values, process, name);
        if let Ok((_, more)) = all_entries(profiled, 0, false, values) {
            law_process_counts_first(more, process, name);
        }
    }
}

/// A profile that is asked for has to have a file.
pub proof fn law_profiles_exist(
    plain: Seq<EnvironmentFileModel>,
    name: Seq<char>,
    profiled: Seq<EnvironmentFileModel>,
    process: Seq<(Seq<char>, Seq<char>)>,
)
    requires
        forall|i: int| 0 <= i < profiled.len() ==> (#[trigger] profiled[i]).text == Ok::<
            Option<Seq<char>>,
            Seq<char>,
        >(None),
    ensures
        environment(plain, Some(name), profiled, process) is Err,
{
    if let Ok((_, values)) = all_entries(plain, 0, false, Seq::empty()) {
        lemma_none_found(profiled, 0, values);
    }
}

proof fn lemma_none_found(
    files: Seq<EnvironmentFileModel>,
    from: int,
    values: Seq<(Seq<char>, Seq<char>)>,
)
    requires
        0 <= from <= files.len(),
        forall|i: int| 0 <= i < files.len() ==> (#[trigger] files[i]).text == Ok::<
            Option<Seq<char>>,
            Seq<char>,
        >(None),
    ensures
        all_entries(files, from, false, values) == Ok::<
            (bool, Seq<(Seq<char>, Seq<char>)>),
            Seq<char>,
        >((false, values)),
    decreases files.len() - from,
{
    if from < files.len() {
        lemma_none_found(files, from + 1, values);
    }
}

proof fn lemma_quoted_errors(text: Seq<char>, quote: char, from: int, done: Seq<char>)
    ensures
        quoted_value(text, quote, from, done) matches Err(message) ==> message
            == "unterminated quoted value"@ || message == "unexpected text after quoted value"@
            || message == "unterminated escape in quoted value"@,
    decreases text.len() - from,
{
    if 0 <= from < text.len() && text[from] != quote {
        if quote == '"' && text[from] == '\\' {
            if from + 1 < text.len() {
                lemma_quoted_errors(text, quote, from + 2, done + unescaped(text[from + 1]));
            }
        } else {
            lemma_quoted_errors(text, quote, from + 1, done.push(text[from]));
        }
    }
}

/// What is said of a line that cannot be read is one of five sentences: it
/// shows nothing of the line.
pub proof fn law_errors_show_nothing(line: Seq<char>)
    ensures
        line_entry(line) matches Err(message) ==> message == "expected `NAME=value`"@ || message
            == "environment variable name must use letters, digits, or `_` and cannot start with a digit"@
            || message == "unterminated quoted value"@ || message
            == "unexpected text after quoted value"@ || message
            == "unterminated escape in quoted value"@,
{
    let solid = trimmed_start(line);
    let plain = if begins_with(solid, "export "@) {
        solid.skip("export "@.len() as int)
    } else {
        solid
    };
    match split_at(plain, '=') {
        Some((name, raw)) => {
            let value = trimmed_start(raw);
            if value.len() > 0 {
                lemma_quoted_errors(value.skip(1), '"', 0, Seq::empty());
                lemma_quoted_errors(value.skip(1), '\'', 0, Seq::empty());
            }
        },
        None => {},
    }
}

proof fn lemma_plain_quoted(text: Seq<char>, from: int)
    requires
        !text.contains('\''),
        0 <= from <= text.len(),
    ensures
        quoted_value(text.push('\''), '\'', from, text.take(from)) == Ok::<Seq<char>, Seq<char>>(
            text,
        ),
        quoted_value(text, '\'', from, text.take(from)) == Err::<Seq<char>, Seq<char>>(
            "unterminated quoted value"@,
        ),
    decreases text.len() - from,
{
    let whole = text.push('\'');
    if from < text.len() {
        assert(text[from] != '\'');
        assert(text.take(from).push(text[from]) =~= text.take(from + 1));
        lemma_plain_quoted(text, from + 1);
    } else {
        assert(text.take(from) =~= text);
        assert(whole.skip(from + 1) =~= Seq::empty());
    }
}

/// A text without a single quote is read back from single quotes as it is:
/// nothing in it is expanded. Without the quote that ends it, it is refused.
pub proof fn law_single_quotes_read_back(text: Seq<char>)
    requires
        !text.contains('\''),
    ensures
        quoted_value(text.push('\''), '\'', 0, Seq::empty()) == Ok::<Seq<char>, Seq<char>>(text),
        quoted_value(text, '\'', 0, Seq::empty()) == Err::<Seq<char>, Seq<char>>(
            "unterminated quoted value"@,
        ),
{
    assert(text.take(0) =~= Seq::empty());
    lemma_plain_quoted(text, 0);
}

/// A character as it stands between double quotes.
pub open spec fn escaped_char(c: char) -> Seq<char> {
    if c == '\\' || c == '"' {
        seq!['\\', c]
    } else {
        seq![c]
    }
}

/// A text with a backslash before every backslash and every double quote.
pub open spec fn escaped(text: Seq<char>) -> Seq<char>
    decreases text.len(),
{
    if text.len() == 0 {
        Seq::empty()
    } else {
        escaped(text.drop_last()) + escaped_char(text.last())
    }
}

proof fn lemma_escaped_front(text: Seq<char>, count: int)
    requires
        0 <= count <= text.len(),
    ensures
        escaped(text.take(count)).len() <= escaped(text).len(),
        escaped(text).take(escaped(text.take(count)).len() as int) == escaped(text.take(count)),
    decreases text.len() - count,
{
    let front = escaped(text.take(count));
    if count == text.len() {
        assert(text.take(count) =~= text);
        assert(escaped(text).take(front.len() as int) =~= front);
    } else {
        lemma_escaped_front(text, count + 1);
        let next = text.take(count + 1);
        assert(next.drop_last() =~= text.take(count));
        assert(next.last() == text[count]);
        let longer = escaped(next);
        assert(longer == front + escaped_char(text[count]));
        assert(escaped(text).take(front.len() as int) =~= longer.take(front.len() as int));
        assert(longer.take(front.len() as int) =~= front);
    }
}

proof fn lemma_escaped_quoted(text: Seq<char>, count: int)
    requires
        0 <= count <= text.len(),
    ensures
        quoted_value(
            escaped(text).push('"'),
            '"',
            escaped(text.take(count)).len() as int,
            text.take(count),
        ) == Ok::<Seq<char>, Seq<char>>(text),
    decreases text.len() - count,
{
    let whole = escaped(text).push('"');
    let from = escaped(text.take(count)).len() as int;
    lemma_escaped_front(text, count);
    if count == text.len() {
        assert(text.take(count) =~= text);
        assert(whole.skip(from + 1) =~= Seq::empty());
    } else {
        let c = text[count];
        let next = text.take(count + 1);
        assert(next.drop_last() =~= text.take(count));
        lemma_escaped_front(text, count + 1);
        let longer = escaped(next);
        assert(longer == escaped(text.take(count)) + escaped_char(c));
        assert(escaped(text).take(longer.len() as int)[from] == longer[from]);
        assert(whole[from] == escaped_char(c)[0]);
        if escaped_char(c).len() == 2 {
            assert(escaped(text).take(longer.len() as int)[from + 1] == longer[from + 1]);
            assert(whole[from + 1] == c);
            assert(text.take(count) + unescaped(c) =~= next);
        } else {
            assert(text.take(count).push(c) =~= next);
        }
        lemma_escaped_quoted(text, count + 1);
    }
}

/// An escaped text is read back from double quotes.
pub proof fn law_double_quotes_read_back(text: Seq<char>)
    ensures
        quoted_value(escaped(text).push('"'), '"', 0, Seq::empty()) == Ok::<Seq<char>, Seq<char>>(
            text,
        ),
{
    assert(text.take(0) =~= Seq::empty());
    lemma_escaped_quoted(text, 0);
}

} // verus!
