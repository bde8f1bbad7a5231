//! Text: loosely written names, numbers in text fields, and digits for display.

use vstd::prelude::*;

verus! {

/// Whether a character is an ASCII letter or digit.
pub open spec fn alphanumeric(c: char) -> bool {
    '0' <= c <= '9' || 'a' <= c <= 'z' || 'A' <= c <= 'Z'
}

/// The ASCII small letter of an ASCII capital; any other character itself.
pub open spec fn lowercase(c: char) -> char {
    if 'A' <= c <= 'Z' {
        (c as u8 + 32) as char
    } else {
        c
    }
}

/// What counts in a loosely written name: its ASCII letters and digits, in lower case.
pub open spec fn key_of(name: Seq<char>) -> Seq<char> {
    name.filter(|c: char| alphanumeric(c)).map_values(|c: char| lowercase(c))
}

/// The key of a name.
pub fn name_key(name: &str) -> (key: Vec<char>)
    ensures
        key@ == key_of(name@),
{
    let count: usize = name.unicode_len();
    let mut key: Vec<char> = Vec::new();
    let mut i: usize = 0;
    reveal(Seq::filter);
    assert(name@.take(0) =~= Seq::<char>::empty());
    while i < count
        invariant
            i <= count,
            count == name@.len(),
            key@ =~= key_of(name@.take(i as int)),
        decreases count - i,
    {
        reveal(Seq::filter);
        let c: char = name.get_char(i);
        assert(name@.take(i + 1).drop_last() =~= name@.take(i as int));
        if ('0' <= c && c <= '9') || ('a' <= c && c <= 'z') {
            key.push(c);
        } else if 'A' <= c && c <= 'Z' {
            key.push((c as u8 + 32) as char);
        }
        i = i + 1;
    }
    assert(name@.take(i as int) =~= name@);
    key
}

/// Separators do not count in a name: a character that is no ASCII letter or digit changes
/// nothing, wherever it stands.
pub proof fn law_separators_do_not_count(before: Seq<char>, c: char, after: Seq<char>)
    requires
        !alphanumeric(c),
    ensures
        key_of(before.push(c) + after) == key_of(before + after),
{
    lemma_key_of_two(before.push(c), after);
    lemma_key_of_two(before, after);
    lemma_key_of_push(before, c);
}

/// Capitals do not count in a name: a letter in either case makes the same key.
pub proof fn law_case_does_not_count(before: Seq<char>, c: char, after: Seq<char>)
    ensures
        key_of(before.push(c) + after) == key_of(before.push(lowercase(c)) + after),
{
    lemma_key_of_two(before.push(c), after);
    lemma_key_of_two(before.push(lowercase(c)), after);
    lemma_key_of_push(before, c);
    lemma_key_of_push(before, lowercase(c));
}

proof fn lemma_key_of_push(name: Seq<char>, c: char)
    ensures
        key_of(name.push(c)) == (if alphanumeric(c) {
            key_of(name).push(lowercase(c))
        } else {
            key_of(name)
        }),
{
    reveal(Seq::filter);
    assert(name.push(c).drop_last() =~= name);
    assert(alphanumeric(c) ==> key_of(name.push(c)) =~= key_of(name).push(lowercase(c)));
}

proof fn lemma_key_of_two(a: Seq<char>, b: Seq<char>)
    ensures
        key_of(a + b) == key_of(a) + key_of(b),
    decreases b.len(),
{
    if b.len() == 0 {
        reveal(Seq::filter);
        assert(a + b =~= a);
        assert(key_of(a) + key_of(b) =~= key_of(a));
    } else {
        lemma_key_of_two(a, b.drop_last());
        assert(a + b =~= (a + b.drop_last()).push(b.last()));
        assert(b =~= b.drop_last().push(b.last()));
        lemma_key_of_push(a + b.drop_last(), b.last());
        lemma_key_of_push(b.drop_last(), b.last());
        assert(key_of(a + b) =~= key_of(a) + key_of(b));
    }
}

/// Whether the characters are those of `text`.
pub fn same_chars(chars: &Vec<char>, text: &str) -> (same: bool)
    ensures
        same == (chars@ == text@),
{
    if chars.len() != text.unicode_len() {
        return false;
    }
    let mut i: usize = 0;
    while i < chars.len()
        invariant
            i <= chars@.len(),
            chars@.len() == text@.len(),
            forall|j: int| 0 <= j < i ==> chars@[j] == text@[j],
        decreases chars@.len() - i,
    {
        if chars[i] != text.get_char(i) {
            return false;
        }
        i = i + 1;
    }
    assert(chars@ =~= text@);
    true
}

/// The Unicode property White_Space.
pub open spec fn is_space(c: char) -> bool {
    ||| 9 <= c as u32 <= 13
    ||| c as u32 == 0x20
    ||| c as u32 == 0x85
    ||| c as u32 == 0xA0
    ||| c as u32 == 0x1680
    ||| 0x2000 <= c as u32 <= 0x200A
    ||| c as u32 == 0x2028
    ||| c as u32 == 0x2029
    ||| c as u32 == 0x202F
    ||| c as u32 == 0x205F
    ||| c as u32 == 0x3000
}

/// Whether a character is white space.
fn space(c: char) -> (yes: bool)
    ensures
        yes == is_space(c),
{
    let code: u32 = c as u32;
    (9 <= code && code <= 13) || code == 0x20 || code == 0x85 || code == 0xA0 || code == 0x1680 || (
    0x2000 <= code && code <= 0x200A) || code == 0x2028 || code == 0x2029 || code == 0x202F || code
        == 0x205F || code == 0x3000
}

/// `text` without the white space in front.
pub open spec fn without_leading_space(text: Seq<char>) -> Seq<char>
    decreases text.len(),
{
    if text.len() > 0 && is_space(text[0]) {
        without_leading_space(text.skip(1))
    } else {
        text
    }
}

/// `text` without the white space at the end.
pub open spec fn without_trailing_space(text: Seq<char>) -> Seq<char>
    decreases text.len(),
{
    if text.len() > 0 && is_space(text.last()) {
        without_trailing_space(text.drop_last())
    } else {
        text
    }
}

/// `text` without the white space on either side.
pub open spec fn trimmed(text: Seq<char>) -> Seq<char> {
    without_trailing_space(without_leading_space(text))
}

/// Takes the white space off both sides.
pub fn trim(text: &str) -> (middle: &str)
    ensures
        middle@ == trimmed(text@),
{
    let count: usize = text.unicode_len();
    let mut from: usize = 0;
    assert(text@.skip(0) =~= text@);
    while from < count && space(text.get_char(from))
        invariant
            from <= count,
            count == text@.len(),
            without_leading_space(text@.skip(from as int)) == without_leading_space(text@),
        decreases count - from,
    {
        assert(text@.skip(from as int).skip(1) =~= text@.skip(from + 1));
        from = from + 1;
    }
    let mut to: usize = count;
    assert(text@.subrange(from as int, to as int) =~= text@.skip(from as int));
    assert(without_leading_space(text@) == text@.skip(from as int));
    while from < to && space(text.get_char(to - 1))
        invariant
            from <= to <= count,
            count == text@.len(),
            without_trailing_space(text@.subrange(from as int, to as int)) == trimmed(text@),
        decreases to - from,
    {
        assert(text@.subrange(from as int, to as int).drop_last() =~= text@.subrange(
            from as int,
            to - 1,
        ));
        to = to - 1;
    }
    text.substring_char(from, to)
}

/// Trimming leaves nothing to trim.
pub proof fn law_trimmed_has_no_space_around(text: Seq<char>)
    ensures
        trimmed(text).len() > 0 ==> !is_space(trimmed(text)[0]) && !is_space(trimmed(text).last()),
        trimmed(trimmed(text)) == trimmed(text),
{
    lemma_no_leading_space(text);
    lemma_no_trailing_space(without_leading_space(text));
}

proof fn lemma_no_leading_space(text: Seq<char>)
    ensures
        without_leading_space(text).len() > 0 ==> !is_space(without_leading_space(text)[0]),
    decreases text.len(),
{
    if text.len() > 0 && is_space(text[0]) {
        lemma_no_leading_space(text.skip(1));
    }
}

proof fn lemma_no_trailing_space(text: Seq<char>)
    ensures
        ({
            let rest = without_trailing_space(text);
            &&& rest.len() > 0 ==> !is_space(rest.last()) && rest[0] == text[0]
            &&& text.len() > 0 && !is_space(text[0]) ==> rest.len() > 0
        }),
    decreases text.len(),
{
    if text.len() > 0 && is_space(text.last()) {
        lemma_no_trailing_space(text.drop_last());
    }
}

/// Whether a character is a decimal digit.
pub open spec fn is_digit(c: char) -> bool {
    '0' <= c <= '9'
}

/// The number that a row of decimal digits stands for.
pub open spec fn digits_value(digits: Seq<char>) -> nat
    decreases digits.len(),
{
    if digits.len() == 0 {
        0
    } else {
        10 * digits_value(digits.drop_last()) + (digits.last() as u32 - '0' as u32) as nat
    }
}

/// The digits of a number that may have a plus sign.
pub open spec fn without_plus(text: Seq<char>) -> Seq<char> {
    if text.len() > 0 && text[0] == '+' {
        text.skip(1)
    } else {
        text
    }
}

/// The number that `text` stands for: one or more decimal digits, which a plus sign may precede,
/// with a value of at most `max`.
pub open spec fn number_in(text: Seq<char>, max: nat) -> Option<nat> {
    let digits = without_plus(text);
    if digits.len() > 0 && (forall|i: int| 0 <= i < digits.len() ==> is_digit(#[trigger] digits[i]))
        && digits_value(digits) <= max {
        Some(digits_value(digits))
    } else {
        None
    }
}

/// A row of digits is worth no less than its beginning.
proof fn lemma_value_grows(digits: Seq<char>, n: int)
    requires
        0 <= n <= digits.len(),
        forall|i: int| 0 <= i < digits.len() ==> is_digit(#[trigger] digits[i]),
    ensures
        digits_value(digits.take(n)) <= digits_value(digits),
    decreases digits.len() - n,
{
    if n == digits.len() {
        assert(digits.take(n) =~= digits);
    } else {
        lemma_value_grows(digits, n + 1);
        assert(digits.take(n + 1).drop_last() =~= digits.take(n));
    }
}

/// Reads a number of at most `max`.
pub fn parse_number(text: &str, max: u32) -> (number: Option<u32>)
    ensures
        match number {
            Some(value) => number_in(text@, max as nat) == Some(value as nat),
            None => number_in(text@, max as nat) is None,
        },
{
    let count: usize = text.unicode_len();
    let from: usize = if count > 0 && text.get_char(0) == '+' {
        1
    } else {
        0
    };
    let ghost digits = without_plus(text@);
    assert(digits =~= text@.skip(from as int));
    if from == count {
        return None;
    }
    let mut value: u64 = 0;
    let mut i: usize = from;
    while i < count
        invariant
            from <= i <= count,
            count == text@.len(),
            digits == text@.skip(from as int),
            digits == without_plus(text@),
            forall|j: int| 0 <= j < i - from ==> is_digit(#[trigger] digits[j]),
            value == digits_value(digits.take(i - from)),
            value <= max,
        decreases count - i,
    {
        let c: char = text.get_char(i);
        assert(c == digits[i - from]);
        if !('0' <= c && c <= '9') {
            return None;
        }
        value = value * 10 + (c as u32 - '0' as u32) as u64;
        assert(digits.take(i - from + 1).drop_last() =~= digits.take(i - from));
        i = i + 1;
        if value > max as u64 {
            proof {
                if number_in(text@, max as nat) is Some {
                    lemma_value_grows(digits, i - from);
                }
            }
            return None;
        }
    }
    assert(digits.take(i - from) =~= digits);
    Some(value as u32)
}

/// The decimal digit for a value below 10.
pub open spec fn digit_of(value: nat) -> char {
    ('0' as u32 + value) as char
}

/// A number in decimal digits, without leading zeros.
pub open spec fn decimal_of(n: nat) -> Seq<char>
    decreases n,
{
    if n < 10 {
        seq![digit_of(n)]
    } else {
        decimal_of(n / 10).push(digit_of(n % 10))
    }
}

/// The hexadecimal digit, in lower case, for a value below 16.
pub open spec fn hex_digit_of(value: nat) -> char {
    if value < 10 {
        digit_of(value)
    } else {
        ('a' as u32 + value - 10) as char
    }
}

/// A number in hexadecimal digits, with leading zeros up to `width` digits.
pub open spec fn hex_of(n: nat, width: nat) -> Seq<char>
    decreases n, width,
{
    if n < 16 && width <= 1 {
        seq![hex_digit_of(n)]
    } else {
        hex_of(
            n / 16,
            if width == 0 {
                0
            } else {
                (width - 1) as nat
            },
        ).push(hex_digit_of(n % 16))
    }
}

/// A hexadecimal digit as text.
fn hex_digit(value: u8) -> (digit: &'static str)
    requires
        value < 16,
    ensures
        digit@ == seq![hex_digit_of(value as nat)],
{
    proof {
        reveal_strlit("0");
        reveal_strlit("1");
        reveal_strlit("2");
        reveal_strlit("3");
        reveal_strlit("4");
        reveal_strlit("5");
        reveal_strlit("6");
        reveal_strlit("7");
        reveal_strlit("8");
        reveal_strlit("9");
        reveal_strlit("a");
        reveal_strlit("b");
        reveal_strlit("c");
        reveal_strlit("d");
        reveal_strlit("e");
        reveal_strlit("f");
    }
    let digit = match value {
        0 => "0",
        1 => "1",
        2 => "2",
        3 => "3",
        4 => "4",
        5 => "5",
        6 => "6",
        7 => "7",
        8 => "8",
        9 => "9",
        10 => "a",
        11 => "b",
        12 => "c",
        13 => "d",
        14 => "e",
        _ => "f",
    };
    assert(digit@ =~= seq![hex_digit_of(value as nat)]);
    digit
}

/// Appends a number in decimal digits.
pub fn push_decimal(text: &mut String, n: u64)
    ensures
        final(text)@ == old(text)@ + decimal_of(n as nat),
    decreases n,
{
    if n >= 10 {
        push_decimal(text, n / 10);
    }
    text.append(hex_digit((n % 10) as u8));
    assert(text@ =~= old(text)@ + decimal_of(n as nat));
}

/// A number in decimal digits.
pub fn decimal(n: u64) -> (text: String)
    ensures
        text@ == decimal_of(n as nat),
{
    let mut text: String = String::from_str("");
    proof {
        reveal_strlit("");
    }
    push_decimal(&mut text, n);
    assert(text@ =~= decimal_of(n as nat));
    text
}

/// Appends a number in hexadecimal digits, with leading zeros up to `width` digits.
pub fn push_hex(text: &mut String, n: usize, width: u8)
    ensures
        final(text)@ == old(text)@ + hex_of(n as nat, width as nat),
    decreases n, width,
{
    if n >= 16 || width > 1 {
        push_hex(
            text,
            n / 16,
            if width == 0 {
                0
            } else {
                width - 1
            },
        );
    }
    text.append(hex_digit((n % 16) as u8));
    assert(text@ =~= old(text)@ + hex_of(n as nat, width as nat));
}

/// A number written in decimal digits reads back as that number.
pub proof fn law_decimal_reads_back(n: nat, max: nat)
    requires
        n <= max,
    ensures
        number_in(decimal_of(n), max) == Some(n),
{
    lemma_decimal_digits(n);
    assert(without_plus(decimal_of(n)) == decimal_of(n));
}

proof fn lemma_decimal_digits(n: nat)
    ensures
        decimal_of(n).len() > 0,
        forall|i: int| 0 <= i < decimal_of(n).len() ==> is_digit(#[trigger] decimal_of(n)[i]),
        digits_value(decimal_of(n)) == n,
    decreases n,
{
    if n < 10 {
        assert(decimal_of(n).drop_last() =~= Seq::<char>::empty());
        assert(digits_value(Seq::<char>::empty()) == 0);
    } else {
        lemma_decimal_digits(n / 10);
        assert(decimal_of(n).drop_last() =~= decimal_of(n / 10));
    }
}

/// Digits are no white space: trimming a number changes nothing.
pub proof fn lemma_decimal_is_trimmed(n: nat)
    ensures
        trimmed(decimal_of(n)) == decimal_of(n),
{
    lemma_decimal_digits(n);
    let digits = decimal_of(n);
    assert(is_digit(digits[0]) && is_digit(digits[digits.len() - 1]));
}

/// The key of a name, character by character: a digit and a small letter count as they are, a
/// capital counts as the small letter 32 places behind it, and nothing else counts.
pub proof fn law_key_goes_by_characters(name: Seq<char>, c: char)
    ensures
        key_of(Seq::empty()) == Seq::<char>::empty(),
        '0' <= c <= '9' || 'a' <= c <= 'z' ==> key_of(name.push(c)) == key_of(name).push(c),
        'A' <= c <= 'Z' ==> key_of(name.push(c)) == key_of(name).push((c as u32 + 32) as char),
        !('0' <= c <= '9' || 'a' <= c <= 'z' || 'A' <= c <= 'Z') ==> key_of(name.push(c))
            == key_of(name),
{
    lemma_key_of_push(name, c);
    reveal(Seq::filter);
    assert(key_of(Seq::empty()) =~= Seq::<char>::empty());
}

/// The key of a name in two parts is the key of the one followed by the key of the other.
pub proof fn law_key_of_two_parts(a: Seq<char>, b: Seq<char>)
    ensures
        key_of(a + b) == key_of(a) + key_of(b),
{
    lemma_key_of_two(a, b);
}

/// A name of digits and small letters is its own key, and every key is such a name.
pub proof fn law_key_of_plain_name(name: Seq<char>)
    ensures
        (forall|i: int|
            0 <= i < name.len() ==> '0' <= #[trigger] name[i] <= '9' || 'a' <= name[i] <= 'z') ==>
            key_of(name) == name,
        forall|i: int|
            0 <= i < key_of(name).len() ==> '0' <= #[trigger] key_of(name)[i] <= '9' || 'a'
                <= key_of(name)[i] <= 'z',
        key_of(name).len() <= name.len(),
    decreases name.len(),
{
    if name.len() == 0 {
        law_key_goes_by_characters(name, 'a');
        assert(name =~= Seq::<char>::empty());
    } else {
        let c = name.last();
        law_key_of_plain_name(name.drop_last());
        lemma_key_of_push(name.drop_last(), c);
        assert(name.drop_last().push(c) =~= name);
    }
}

/// White space is these characters, and no other.
pub proof fn law_what_space_is(c: char)
    ensures
        is_space(c) <==> seq![
            0x9u32,
            0xA,
            0xB,
            0xC,
            0xD,
            0x20,
            0x85,
            0xA0,
            0x1680,
            0x2000,
            0x2001,
            0x2002,
            0x2003,
            0x2004,
            0x2005,
            0x2006,
            0x2007,
            0x2008,
            0x2009,
            0x200A,
            0x2028,
            0x2029,
            0x202F,
            0x205F,
            0x3000,
        ].contains(c as u32),
{
    let all = seq![
        0x9u32,
        0xA,
        0xB,
        0xC,
        0xD,
        0x20,
        0x85,
        0xA0,
        0x1680,
        0x2000,
        0x2001,
        0x2002,
        0x2003,
        0x2004,
        0x2005,
        0x2006,
        0x2007,
        0x2008,
        0x2009,
        0x200A,
        0x2028,
        0x2029,
        0x202F,
        0x205F,
        0x3000,
    ];
    let code = c as u32;
    assert(all[0] == 0x9 && all[1] == 0xA && all[2] == 0xB && all[3] == 0xC && all[4] == 0xD);
    assert(all[5] == 0x20 && all[6] == 0x85 && all[7] == 0xA0 && all[8] == 0x1680);
    assert(all[9] == 0x2000 && all[10] == 0x2001 && all[11] == 0x2002 && all[12] == 0x2003);
    assert(all[13] == 0x2004 && all[14] == 0x2005 && all[15] == 0x2006 && all[16] == 0x2007);
    assert(all[17] == 0x2008 && all[18] == 0x2009 && all[19] == 0x200A && all[20] == 0x2028);
    assert(all[21] == 0x2029 && all[22] == 0x202F && all[23] == 0x205F && all[24] == 0x3000);
    if all.contains(code) {
        let i = all.index_of(code);
        assert(all[i] == code);
    }
}

/// Trimming takes white space off both sides and nothing else: what stands between white space,
/// and itself begins and ends with something else, is what is left.
pub proof fn law_trimming_takes_space_off(before: Seq<char>, middle: Seq<char>, after: Seq<char>)
    requires
        forall|i: int| 0 <= i < before.len() ==> is_space(#[trigger] before[i]),
        forall|i: int| 0 <= i < after.len() ==> is_space(#[trigger] after[i]),
        middle.len() > 0 ==> !is_space(middle[0]) && !is_space(middle.last()),
    ensures
        trimmed(before + middle + after) == middle,
    decreases before.len() + after.len(),
{
    let text = before + middle + after;
    if before.len() > 0 {
        assert(text[0] == before[0]);
        assert(text.skip(1) =~= before.skip(1) + middle + after);
        law_trimming_takes_space_off(before.skip(1), middle, after);
    } else if after.len() > 0 {
        if middle.len() == 0 {
            assert(text[0] == after[0]);
            assert(text.skip(1) =~= before + middle + after.skip(1));
            law_trimming_takes_space_off(before, middle, after.skip(1));
        } else {
            assert(text[0] == middle[0]);
            assert(text.last() == after.last());
            assert(text.drop_last() =~= before + middle + after.drop_last());
            law_trimming_takes_space_off(before, middle, after.drop_last());
            assert(text.drop_last()[0] == middle[0]);
        }
    } else {
        assert(text =~= middle);
    }
}

/// Numbers are read digit by digit: a digit alone stands for its value, and one more digit behind
/// a number makes it ten times as much and adds its value, unless that is too much.
pub proof fn law_number_goes_by_digits(text: Seq<char>, c: char, max: nat, more: nat)
    requires
        '0' <= c <= '9',
    ensures
        ({
            let value = (c as u32 - '0' as u32) as nat;
            &&& number_in(seq![c], more) == (if value <= more {
                Some(value)
            } else {
                None
            })
            &&& number_in(text, max) matches Some(number) ==> number_in(text.push(c), more) == (
            if 10 * number + value <= more {
                Some((10 * number + value) as nat)
            } else {
                None
            })
        }),
{
    let one = seq![c];
    assert(one.drop_last() =~= Seq::<char>::empty());
    assert(digits_value(Seq::<char>::empty()) == 0);
    assert(without_plus(one) == one);
    assert(is_digit(one[0]));
    if number_in(text, max) is Some {
        let digits = without_plus(text);
        assert(without_plus(text.push(c)) =~= digits.push(c));
        assert(digits.push(c).drop_last() =~= digits);
        assert forall|i: int| 0 <= i < digits.push(c).len() implies is_digit(
            #[trigger] digits.push(c)[i],
        ) by {
            if i < digits.len() {
                assert(is_digit(digits[i]));
            }
        }
    }
}

/// What is no number: nothing at all, a plus sign alone, text with anything but digits behind its
/// first character, and text that begins with anything but a digit or a plus sign. A limit only
/// takes numbers away: what is above it.
pub proof fn law_what_is_no_number(text: Seq<char>, i: int, max: nat, more: nat)
    ensures
        number_in(Seq::empty(), max) is None,
        number_in(seq!['+'], max) is None,
        0 < i < text.len() && !('0' <= text[i] <= '9') ==> number_in(text, max) is None,
        text.len() > 0 && !('0' <= text[0] <= '9') && text[0] != '+' ==> number_in(text, max)
            is None,
        number_in(text, max) matches Some(number) ==> number <= max && number_in(text, more) == (
        if number <= more {
            Some(number)
        } else {
            None
        }),
{
    let digits = without_plus(text);
    if text.len() > 0 && text[0] == '+' && 0 < i < text.len() {
        assert(digits[i - 1] == text[i]);
    } else if 0 < i < text.len() {
        assert(digits[i] == text[i]);
    }
    if text.len() > 0 && text[0] != '+' {
        assert(digits[0] == text[0]);
    }
    assert(without_plus(seq!['+']).len() == 0);
}

/// A plus sign before a digit changes nothing.
pub proof fn law_plus_sign_changes_nothing(text: Seq<char>, max: nat)
    requires
        text.len() > 0,
        text[0] != '+',
    ensures
        number_in(seq!['+'] + text, max) == number_in(text, max),
{
    assert((seq!['+'] + text).skip(1) =~= text);
}

/// Decimal digits, one by one: a number below 10 is one digit, and behind the digits of a number
/// above 0 stands the digit that is added to ten times that number.
pub proof fn law_decimal_goes_by_digits(n: nat, digit: nat)
    requires
        digit < 10,
    ensures
        decimal_of(digit) == seq![(0x30 + digit) as char],
        n > 0 ==> decimal_of(10 * n + digit) == decimal_of(n).push((0x30 + digit) as char),
{
    assert((10 * n + digit) / 10 == n);
    assert((10 * n + digit) % 10 == digit);
}

/// Hexadecimal digits, one by one: a number below 16 is one digit where no more are asked for, and
/// behind the digits of a number stands the digit that is added to sixteen times that number. The
/// digits above 9 are the small letters from `a` on.
pub proof fn law_hex_goes_by_digits(n: nat, width: nat, digit: nat)
    requires
        digit < 16,
    ensures
        ({
            let c = (if digit < 10 {
                0x30 + digit
            } else {
                0x57 + digit
            }) as char;
            &&& hex_of(digit, 0) == seq![c]
            &&& hex_of(digit, 1) == seq![c]
            &&& n > 0 || width > 0 ==> hex_of(16 * n + digit, width + 1) == hex_of(n, width).push(c)
            &&& n > 0 ==> hex_of(16 * n + digit, 0) == hex_of(n, 0).push(c)
        }),
{
    assert((16 * n + digit) / 16 == n);
    assert((16 * n + digit) % 16 == digit);
}

/// A byte in two hexadecimal digits.
pub proof fn law_hex_of_byte(byte: u8)
    ensures
        hex_of(byte as nat, 2) == hex_of((byte / 16) as nat, 1) + hex_of((byte % 16) as nat, 1),
        hex_of(byte as nat, 2).len() == 2,
{
    let high = (byte / 16) as nat;
    let low = (byte % 16) as nat;
    law_hex_goes_by_digits(high, 1, low);
    law_hex_goes_by_digits(0, 0, high);
    law_hex_goes_by_digits(0, 0, low);
    assert(hex_of(byte as nat, 2) =~= hex_of(high, 1) + hex_of(low, 1));
}

/// There are never fewer hexadecimal digits than asked for.
pub proof fn law_hex_has_its_width(n: nat, width: nat)
    ensures
        hex_of(n, width).len() >= width,
        hex_of(n, width).len() >= 1,
    decreases n, width,
{
    if !(n < 16 && width <= 1) {
        law_hex_has_its_width(
            n / 16,
            if width == 0 {
                0
            } else {
                (width - 1) as nat
            },
        );
    }
}

} // verus!
