//! Text as sequences of characters: the few string operations that the rest of
//! the library is stated over.

use vstd::prelude::*;
use vstd::string::*;
use vstd::utf8::*;

verus! {

/// `String::push` appends one character and leaves the rest as it was.
pub assume_specification[ std::string::String::push ](
    target: &mut std::string::String,
    character: char,
)
    ensures
        final(target)@ == old(target)@.push(character),
;

// ---------------------------------------------------------------------------
// Characters

/// How many bytes the UTF-8 encoding of `c` takes.
pub open spec fn char_width(c: char) -> nat {
    encode_scalar(c as u32).len()
}

/// How many UTF-16 code units `c` takes.
pub open spec fn utf16_width(c: char) -> nat {
    if (c as u32) < 0x10000 {
        1
    } else {
        2
    }
}

/// The number of bytes in front of character `index`.
pub open spec fn byte_offset_of(chars: Seq<char>, index: int) -> nat
    decreases index,
{
    if index <= 0 {
        0
    } else {
        byte_offset_of(chars, index - 1) + char_width(chars[index - 1])
    }
}

pub open spec fn is_digit(c: char) -> bool {
    '0' <= c <= '9'
}

pub open spec fn is_letter(c: char) -> bool {
    ('a' <= c <= 'z') || ('A' <= c <= 'Z')
}

/// The characters with the Unicode property White_Space.
pub open spec fn is_space(c: char) -> bool {
    let code = c as u32;
    ||| 0x09 <= code <= 0x0D
    ||| code == 0x20
    ||| code == 0x85
    ||| code == 0xA0
    ||| code == 0x1680
    ||| 0x2000 <= code <= 0x200A
    ||| code == 0x2028
    ||| code == 0x2029
    ||| code == 0x202F
    ||| code == 0x205F
    ||| code == 0x3000
}

pub open spec fn lower(c: char) -> char {
    if 'A' <= c <= 'Z' {
        (c as u32 + 32) as char
    } else {
        c
    }
}

pub open spec fn upper(c: char) -> char {
    if 'a' <= c <= 'z' {
        (c as u32 - 32) as char
    } else {
        c
    }
}

/// `text` with its ASCII capitals made small.
pub open spec fn lowered(text: Seq<char>) -> Seq<char> {
    Seq::new(text.len(), |i: int| lower(text[i]))
}

/// `text` with its small ASCII letters made capital.
pub open spec fn uppered(text: Seq<char>) -> Seq<char> {
    Seq::new(text.len(), |i: int| upper(text[i]))
}

pub fn width_of(c: char) -> (width: usize)
    ensures
        width == char_width(c),
        1 <= width <= 4,
{
    broadcast use char_is_scalar;

    let code: u32 = c as u32;
    if code <= 0x7F {
        1
    } else if code <= 0x7FF {
        2
    } else if code <= 0xFFFF {
        3
    } else {
        4
    }
}

pub fn digit_char(c: char) -> (yes: bool)
    ensures
        yes == is_digit(c),
{
    '0' <= c && c <= '9'
}

pub fn letter_char(c: char) -> (yes: bool)
    ensures
        yes == is_letter(c),
{
    ('a' <= c && c <= 'z') || ('A' <= c && c <= 'Z')
}

pub fn space_char(c: char) -> (yes: bool)
    ensures
        yes == is_space(c),
{
    let code: u32 = c as u32;
    (0x09 <= code && code <= 0x0D) || code == 0x20 || code == 0x85 || code == 0xA0 || code == 0x1680
        || (0x2000 <= code && code <= 0x200A) || code == 0x2028 || code == 0x2029 || code == 0x202F
        || code == 0x205F || code == 0x3000
}

pub fn lower_char(c: char) -> (small: char)
    ensures
        small == lower(c),
{
    if 'A' <= c && c <= 'Z' {
        let byte: u8 = c as u8;
        (byte + 32) as char
    } else {
        c
    }
}

pub fn upper_char(c: char) -> (capital: char)
    ensures
        capital == upper(c),
{
    if 'a' <= c && c <= 'z' {
        let byte: u8 = c as u8;
        (byte - 32) as char
    } else {
        c
    }
}

// ---------------------------------------------------------------------------
// Strings and character vectors

/// The characters of `text`.
pub fn chars_of(text: &str) -> (chars: Vec<char>)
    ensures
        chars@ == text@,
{
    let mut chars: Vec<char> = Vec::new();
    for c in iter: text.chars()
        invariant
            iter.seq() == text@,
            chars@ == text@.take(iter.index() as int),
    {
        chars.push(c);
        proof {
            assert(text@.take(iter.index() + 1) =~= text@.take(iter.index() as int).push(c));
        }
    }
    proof {
        assert(text@.take(text@.len() as int) =~= text@);
    }
    chars
}

/// The characters of `chars` from `from` up to `to`, as a string.
pub fn text_between(chars: &Vec<char>, from: usize, to: usize) -> (text: String)
    requires
        from <= to <= chars.len(),
    ensures
        text@ == chars@.subrange(from as int, to as int),
{
    let mut text: String = String::new();
    let mut at: usize = from;
    while at < to
        invariant
            from <= at <= to <= chars.len(),
            text@ == chars@.subrange(from as int, at as int),
        decreases to - at,
    {
        text.push(chars[at]);
        proof {
            assert(chars@.subrange(from as int, at + 1) =~= chars@.subrange(
                from as int,
                at as int,
            ).push(chars@[at as int]));
        }
        at += 1;
    }
    text
}

/// Whether two strings hold the same characters.
pub fn same(left: &str, right: &str) -> (equal: bool)
    ensures
        equal == (left@ == right@),
{
    let a: &[u8] = left.as_bytes();
    let b: &[u8] = right.as_bytes();
    proof {
        encode_utf8_decode_utf8(left@);
        encode_utf8_decode_utf8(right@);
    }
    if a.len() != b.len() {
        return false;
    }
    let mut at: usize = 0;
    while at < a.len()
        invariant
            a@.len() == b@.len(),
            a@ == encode_utf8(left@),
            b@ == encode_utf8(right@),
            at <= a@.len(),
            forall|k: int| 0 <= k < at ==> a@[k] == b@[k],
        decreases a@.len() - at,
    {
        if a[at] != b[at] {
            return false;
        }
        at += 1;
    }
    proof {
        assert(a@ =~= b@);
    }
    true
}

/// `prefix`, then `text`, then `suffix`.
pub fn wrapped(prefix: &str, text: &str, suffix: &str) -> (whole: String)
    ensures
        whole@ == prefix@ + text@ + suffix@,
{
    let mut whole: String = prefix.to_owned();
    whole.append(text);
    whole.append(suffix);
    whole
}

/// The empty string.
pub fn no_text() -> (text: String)
    ensures
        text@ == Seq::<char>::empty(),
{
    String::new()
}

/// So many of one character.
pub open spec fn repeated(c: char, count: int) -> Seq<char> {
    Seq::new(
        if count > 0 {
            count as nat
        } else {
            0
        },
        |i: int| c,
    )
}

pub fn repeat(c: char, count: usize) -> (text: String)
    ensures
        text@ == repeated(c, count as int),
{
    let mut text: String = no_text();
    let mut done: usize = 0;
    while done < count
        invariant
            done <= count,
            text@ == repeated(c, done as int),
        decreases count - done,
    {
        text.push(c);
        done += 1;
        proof {
            assert(text@ =~= repeated(c, done as int));
        }
    }
    text
}

/// The text with spaces behind it up to a width.
pub open spec fn padded(text: Seq<char>, width: int) -> Seq<char> {
    text + repeated(' ', width - text.len())
}

pub fn pad(text: &str, width: usize) -> (result: String)
    ensures
        result@ == padded(text@, width as int),
{
    let letters: Vec<char> = chars_of(text);
    let mut result: String = text.to_owned();
    if letters.len() < width {
        result.append(repeat(' ', width - letters.len()).as_str());
    } else {
        proof {
            assert(repeated(' ', width - text@.len()) =~= Seq::empty());
            assert(text@ + Seq::<char>::empty() =~= text@);
        }
    }
    result
}

// ---------------------------------------------------------------------------
// Decimal numerals

/// The character for a digit below ten.
pub open spec fn digit_of(value: nat) -> char {
    (48 + value) as char
}

/// The decimal numeral of `value`, without leading zeros.
pub open spec fn decimal(value: nat) -> Seq<char>
    decreases value,
{
    if value < 10 {
        seq![digit_of(value)]
    } else {
        decimal(value / 10).push(digit_of(value % 10))
    }
}

/// The decimal numeral of a signed number.
pub open spec fn signed_decimal(value: int) -> Seq<char> {
    if value < 0 {
        seq!['-'] + decimal((-value) as nat)
    } else {
        decimal(value as nat)
    }
}

pub fn digit_text(value: u8) -> (c: char)
    requires
        value < 10,
    ensures
        c == digit_of(value as nat),
{
    (48 + value) as char
}

/// Writes `value` behind `text` as a decimal numeral.
pub fn push_decimal(text: &mut String, value: u128)
    ensures
        final(text)@ == old(text)@ + decimal(value as nat),
    decreases value,
{
    if value >= 10 {
        push_decimal(text, value / 10);
    }
    let digit: u8 = (value % 10) as u8;
    text.push(digit_text(digit));
    proof {
        if value >= 10 {
            assert(old(text)@ + decimal((value / 10) as nat).push(digit_of((value % 10) as nat))
                =~= (old(text)@ + decimal((value / 10) as nat)).push(
                digit_of((value % 10) as nat),
            ));
        } else {
            assert(old(text)@ + seq![digit_of(value as nat)] =~= old(text)@.push(
                digit_of(value as nat),
            ));
        }
    }
}

/// The decimal numeral of `value`.
pub fn decimal_text(value: u128) -> (text: String)
    ensures
        text@ == decimal(value as nat),
{
    let mut text: String = String::new();
    push_decimal(&mut text, value);
    proof {
        assert(Seq::<char>::empty() + decimal(value as nat) =~= decimal(value as nat));
    }
    text
}

/// A number below a thousand in three digits.
pub open spec fn three_digits(value: nat) -> Seq<char> {
    seq![digit_of(value / 100), digit_of(value / 10 % 10), digit_of(value % 10)]
}

/// The decimal numeral of `value` with a comma before every three digits from
/// its end.
pub open spec fn grouped(value: nat) -> Seq<char>
    decreases value,
{
    if value < 1000 {
        decimal(value)
    } else {
        grouped(value / 1000).push(',') + three_digits(value % 1000)
    }
}

/// Writes the decimal numeral of `value`, its digits in groups of three.
pub fn grouped_text(value: u128) -> (text: String)
    ensures
        text@ == grouped(value as nat),
    decreases value,
{
    if value < 1000 {
        return decimal_text(value);
    }
    let mut text: String = grouped_text(value / 1000);
    let rest: u128 = value % 1000;
    text.push(',');
    text.push(digit_text((rest / 100) as u8));
    text.push(digit_text((rest / 10 % 10) as u8));
    text.push(digit_text((rest % 10) as u8));
    proof {
        assert(text@ =~= grouped((value / 1000) as nat).push(',') + three_digits(rest as nat));
    }
    text
}

proof fn lemma_decimal_has_no_comma(value: nat)
    ensures
        decimal(value).filter(|c: char| c != ',') == decimal(value),
    decreases value,
{
    reveal(Seq::filter);
    if value >= 10 {
        lemma_decimal_has_no_comma(value / 10);
        assert(decimal(value).drop_last() =~= decimal(value / 10));
    } else {
        assert(decimal(value).drop_last() =~= Seq::empty());
        assert(decimal(value) =~= Seq::empty().push(digit_of(value)));
    }
}

/// Groups differ from the plain numeral in their commas alone.
pub proof fn law_groups_keep_the_digits(value: nat)
    ensures
        grouped(value).filter(|c: char| c != ',') == decimal(value),
    decreases value,
{
    let kept = |c: char| c != ',';
    if value < 1000 {
        lemma_decimal_has_no_comma(value);
    } else {
        let rest = value % 1000;
        let front = grouped(value / 1000);
        law_groups_keep_the_digits(value / 1000);
        assert(decimal(value) =~= decimal(value / 1000) + three_digits(rest)) by {
            reveal_with_fuel(decimal, 4);
            assert(value / 10 / 10 / 10 == value / 1000);
            assert(value / 10 / 10 % 10 == rest / 100);
            assert(value / 10 % 10 == rest / 10 % 10);
            assert(value % 10 == rest % 10);
        }
        let one = front.push(',');
        let two = one.push(digit_of(rest / 100));
        let three = two.push(digit_of(rest / 10 % 10));
        let whole = three.push(digit_of(rest % 10));
        assert(grouped(value) =~= whole);
        reveal(Seq::filter);
        assert(one.drop_last() =~= front);
        assert(two.drop_last() =~= one);
        assert(three.drop_last() =~= two);
        assert(whole.drop_last() =~= three);
        assert(one.filter(kept) == front.filter(kept));
        assert(two.filter(kept) == one.filter(kept).push(digit_of(rest / 100)));
        assert(three.filter(kept) == two.filter(kept).push(digit_of(rest / 10 % 10)));
        assert(whole.filter(kept) == three.filter(kept).push(digit_of(rest % 10)));
        assert(decimal(value) =~= whole.filter(kept));
    }
}

/// The decimal numeral of a signed `value`.
pub fn signed_decimal_text(value: i64) -> (text: String)
    ensures
        text@ == signed_decimal(value as int),
{
    if value < 0 {
        let mut text: String = String::new();
        text.push('-');
        let magnitude: i128 = -(value as i128);
        push_decimal(&mut text, magnitude as u128);
        proof {
            assert(Seq::<char>::empty().push('-') =~= seq!['-']);
        }
        text
    } else {
        decimal_text(value as u128)
    }
}

// ---------------------------------------------------------------------------
// Parts of texts

/// The position of the first `c` from `from` on, or the length if there is
/// none.
pub open spec fn position_of(text: Seq<char>, c: char, from: int) -> int
    decreases text.len() - from,
{
    if from >= text.len() {
        text.len() as int
    } else if text[from] == c {
        from
    } else {
        position_of(text, c, from + 1)
    }
}

pub proof fn lemma_position_of(text: Seq<char>, c: char, from: int)
    requires
        0 <= from <= text.len(),
    ensures
        from <= position_of(text, c, from) <= text.len(),
        position_of(text, c, from) < text.len() ==> text[position_of(text, c, from)] == c,
        forall|i: int| from <= i < position_of(text, c, from) ==> text[i] != c,
    decreases text.len() - from,
{
    if from < text.len() && text[from] != c {
        lemma_position_of(text, c, from + 1);
    }
}

/// The parts of the text before and behind the first `c`.
pub open spec fn split_at(text: Seq<char>, c: char) -> Option<(Seq<char>, Seq<char>)> {
    let at = position_of(text, c, 0);
    if at < text.len() {
        Some((text.subrange(0, at), text.subrange(at + 1, text.len() as int)))
    } else {
        None
    }
}

pub open spec fn pair_view(pair: Option<(String, String)>) -> Option<(Seq<char>, Seq<char>)> {
    match pair {
        Some((first, second)) => Some((first@, second@)),
        None => None,
    }
}

/// The position of the first `c` from `from` on, or the length.
pub fn find_char(chars: &Vec<char>, c: char, from: usize) -> (at: usize)
    requires
        from <= chars@.len(),
    ensures
        at == position_of(chars@, c, from as int),
        from <= at <= chars@.len(),
        at < chars@.len() ==> chars@[at as int] == c,
{
    let mut at: usize = from;
    while at < chars.len() && chars[at] != c
        invariant
            from <= at <= chars@.len(),
            position_of(chars@, c, from as int) == position_of(chars@, c, at as int),
        decreases chars@.len() - at,
    {
        at += 1;
    }
    at
}

/// The parts of the text before and behind the first `c`.
pub fn split_once(text: &str, c: char) -> (parts: Option<(String, String)>)
    ensures
        pair_view(parts) == split_at(text@, c),
{
    let chars: Vec<char> = chars_of(text);
    let at: usize = find_char(&chars, c, 0);
    if at < chars.len() {
        Some((text_between(&chars, 0, at), text_between(&chars, at + 1, chars.len())))
    } else {
        None
    }
}

/// Whether the text holds `c`.
pub fn has_char(text: &str, c: char) -> (yes: bool)
    ensures
        yes == text@.contains(c),
{
    let chars: Vec<char> = chars_of(text);
    let at: usize = find_char(&chars, c, 0);
    proof {
        lemma_position_of(text@, c, 0);
        if at < chars@.len() {
            assert(text@[at as int] == c);
        }
    }
    at < chars.len()
}

/// The text in capitals.
pub fn uppercase(text: &str) -> (capitals: String)
    ensures
        capitals@ == uppered(text@),
{
    let chars: Vec<char> = chars_of(text);
    let mut capitals: String = no_text();
    let mut at: usize = 0;
    while at < chars.len()
        invariant
            chars@ == text@,
            at <= chars@.len(),
            capitals@ == uppered(text@).subrange(0, at as int),
        decreases chars@.len() - at,
    {
        capitals.push(upper_char(chars[at]));
        at += 1;
        proof {
            assert(capitals@ =~= uppered(text@).subrange(0, at as int));
        }
    }
    proof {
        assert(capitals@ =~= uppered(text@));
    }
    capitals
}

/// The text in small letters.
pub fn lowercase(text: &str) -> (letters: String)
    ensures
        letters@ == lowered(text@),
{
    let chars: Vec<char> = chars_of(text);
    let mut letters: String = no_text();
    let mut at: usize = 0;
    while at < chars.len()
        invariant
            chars@ == text@,
            at <= chars@.len(),
            letters@ == lowered(text@).subrange(0, at as int),
        decreases chars@.len() - at,
    {
        letters.push(lower_char(chars[at]));
        at += 1;
        proof {
            assert(letters@ =~= lowered(text@).subrange(0, at as int));
        }
    }
    proof {
        assert(letters@ =~= lowered(text@));
    }
    letters
}

/// Texts one behind the other with `separator` between them, from `from` on.
pub open spec fn joined(texts: Seq<Seq<char>>, separator: Seq<char>, from: int) -> Seq<char>
    decreases texts.len() - from,
{
    if from < 0 || from >= texts.len() {
        Seq::empty()
    } else {
        (if from > 0 {
            separator
        } else {
            Seq::empty()
        }) + texts[from] + joined(texts, separator, from + 1)
    }
}

pub open spec fn views(texts: Seq<String>) -> Seq<Seq<char>> {
    Seq::new(texts.len(), |i: int| texts[i]@)
}

/// The texts one behind the other with `separator` between them.
pub fn join(texts: &Vec<String>, separator: &str) -> (whole: String)
    ensures
        whole@ == joined(views(texts@), separator@, 0),
{
    let ghost all = views(texts@);
    let mut whole: String = no_text();
    let mut at: usize = 0;
    proof {
        assert(whole@ + joined(all, separator@, 0) =~= joined(all, separator@, 0));
    }
    while at < texts.len()
        invariant
            all == views(texts@),
            at <= texts@.len(),
            whole@ + joined(all, separator@, at as int) == joined(all, separator@, 0),
        decreases texts@.len() - at,
    {
        let ghost held = whole@;
        if at > 0 {
            whole.append(separator);
        }
        whole.append(texts[at].as_str());
        proof {
            let gap = if at > 0 {
                separator@
            } else {
                Seq::empty()
            };
            let rest = joined(all, separator@, at + 1);
            assert(held + (gap + all[at as int] + rest) =~= ((held + gap) + all[at as int]) + rest);
            assert(whole@ =~= (held + gap) + all[at as int]);
        }
        at += 1;
    }
    proof {
        assert(whole@ + Seq::<char>::empty() =~= whole@);
    }
    whole
}

/// Whether some text of the list is `text`.
pub fn listed(texts: &Vec<String>, text: &str) -> (yes: bool)
    ensures
        yes == views(texts@).contains(text@),
{
    let mut at: usize = 0;
    while at < texts.len()
        invariant
            at <= texts@.len(),
            forall|i: int| 0 <= i < at ==> (#[trigger] texts@[i])@ != text@,
        decreases texts@.len() - at,
    {
        if same(texts[at].as_str(), text) {
            proof {
                assert(views(texts@)[at as int] == text@);
            }
            return true;
        }
        at += 1;
    }
    proof {
        assert forall|i: int| 0 <= i < views(texts@).len() implies views(texts@)[i] != text@ by {
            assert(texts@[i]@ != text@);
        }
    }
    false
}

// ---------------------------------------------------------------------------
// White space

/// The first place from `from` on without white space.
pub open spec fn first_solid(text: Seq<char>, from: int) -> int
    decreases text.len() - from,
{
    if 0 <= from < text.len() && is_space(text[from]) {
        first_solid(text, from + 1)
    } else {
        from
    }
}

/// The last place before `end` behind which there is white space only.
pub open spec fn last_solid(text: Seq<char>, from: int, end: int) -> int
    decreases end - from,
{
    if from < end && is_space(text[end - 1]) {
        last_solid(text, from, end - 1)
    } else {
        end
    }
}

/// The text without white space around it.
pub open spec fn trimmed(text: Seq<char>) -> Seq<char> {
    let from = first_solid(text, 0);
    text.subrange(from, last_solid(text, from, text.len() as int))
}

pub fn trim(text: &str) -> (result: String)
    ensures
        result@ == trimmed(text@),
{
    let chars: Vec<char> = chars_of(text);
    let mut from: usize = 0;
    while from < chars.len() && space_char(chars[from])
        invariant
            from <= chars@.len(),
            first_solid(chars@, 0) == first_solid(chars@, from as int),
        decreases chars@.len() - from,
    {
        from += 1;
    }
    let mut end: usize = chars.len();
    while from < end && space_char(chars[end - 1])
        invariant
            from <= end <= chars@.len(),
            last_solid(chars@, from as int, chars@.len() as int) == last_solid(
                chars@,
                from as int,
                end as int,
            ),
        decreases end - from,
    {
        end -= 1;
    }
    text_between(&chars, from, end)
}

/// The text from the first place without white space on.
pub open spec fn trimmed_start(text: Seq<char>) -> Seq<char> {
    text.subrange(first_solid(text, 0), text.len() as int)
}

/// Where the text has its first character without white space.
pub fn solid_start(chars: &Vec<char>, start: usize) -> (from: usize)
    requires
        start <= chars@.len(),
    ensures
        from == first_solid(chars@, start as int),
        start <= from <= chars@.len(),
{
    let mut from: usize = start;
    while from < chars.len() && space_char(chars[from])
        invariant
            start <= from <= chars@.len(),
            first_solid(chars@, start as int) == first_solid(chars@, from as int),
        decreases chars@.len() - from,
    {
        from += 1;
    }
    from
}

pub fn trim_start(text: &str) -> (result: String)
    ensures
        result@ == trimmed_start(text@),
{
    let chars: Vec<char> = chars_of(text);
    let from: usize = solid_start(&chars, 0);
    text_between(&chars, from, chars.len())
}

/// The text without white space behind it.
pub open spec fn trimmed_end(text: Seq<char>) -> Seq<char> {
    text.subrange(0, last_solid(text, 0, text.len() as int))
}

pub fn trim_end(text: &str) -> (result: String)
    ensures
        result@ == trimmed_end(text@),
{
    let chars: Vec<char> = chars_of(text);
    let mut end: usize = chars.len();
    while 0 < end && space_char(chars[end - 1])
        invariant
            end <= chars@.len(),
            last_solid(chars@, 0, chars@.len() as int) == last_solid(chars@, 0, end as int),
        decreases end,
    {
        end -= 1;
    }
    text_between(&chars, 0, end)
}

/// Whether a text begins with another.
pub open spec fn begins_with(text: Seq<char>, start: Seq<char>) -> bool {
    text.len() >= start.len() && text.take(start.len() as int) == start
}

/// The text behind its beginning.
pub fn strip_prefix(text: &str, start: &str) -> (rest: Option<String>)
    ensures
        match rest {
            Some(rest) => begins_with(text@, start@) && rest@ == text@.skip(start@.len() as int),
            None => !begins_with(text@, start@),
        },
{
    let chars: Vec<char> = chars_of(text);
    let letters: Vec<char> = chars_of(start);
    if chars.len() < letters.len() {
        return None;
    }
    let mut at: usize = 0;
    while at < letters.len()
        invariant
            chars@ == text@,
            letters@ == start@,
            at <= letters@.len() <= chars@.len(),
            forall|i: int| 0 <= i < at ==> chars@[i] == letters@[i],
        decreases letters@.len() - at,
    {
        if chars[at] != letters[at] {
            proof {
                assert(text@.take(start@.len() as int)[at as int] != start@[at as int]);
            }
            return None;
        }
        at += 1;
    }
    proof {
        assert(text@.take(start@.len() as int) =~= start@);
        assert(text@.subrange(at as int, text@.len() as int) =~= text@.skip(start@.len() as int));
    }
    Some(text_between(&chars, at, chars.len()))
}

} // verus!
