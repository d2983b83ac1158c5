//! Strings as sequences of characters.

use vstd::prelude::*;

verus! {

/// The characters of a string, in order.
pub fn chars_of(text: &str) -> (chars: Vec<char>)
    ensures
        chars@ == text@,
{
    let mut chars: Vec<char> = Vec::new();
    for c in it: text.chars()
        invariant
            it.seq() == text@,
            chars@ == it.seq().take(it.index() as int),
    {
        chars.push(c);
    }
    chars
}

/// Calls `String::push`, which appends one character to the end of the string.
#[verifier::external_body]
fn push_char(text: &mut String, c: char)
    ensures
        final(text)@ == old(text)@.push(c),
{
    text.push(c)
}

/// Appends the characters of `chars` to `text`.
pub fn append_chars(text: &mut String, chars: &Vec<char>)
    ensures
        final(text)@ == old(text)@ + chars@,
{
    let mut i: usize = 0;
    while i < chars.len()
        invariant
            i <= chars.len(),
            text@ == old(text)@ + chars@.take(i as int),
        decreases chars.len() - i,
    {
        push_char(text, chars[i]);
        i += 1;
    }
}

/// The string that holds the characters of `chars`.
pub fn string_of(chars: &Vec<char>) -> (text: String)
    ensures
        text@ == chars@,
{
    let mut text = String::new();
    append_chars(&mut text, chars);
    text
}

/// Whether two lists hold the same characters.
pub fn same_chars(a: &Vec<char>, b: &Vec<char>) -> (same: bool)
    ensures
        same == (a@ == b@),
{
    if a.len() != b.len() {
        return false;
    }
    let mut i: usize = 0;
    while i < a.len()
        invariant
            i <= a.len(),
            a.len() == b.len(),
            forall|j: int| 0 <= j < i ==> a@[j] == b@[j],
        decreases a.len() - i,
    {
        if a[i] != b[i] {
            return false;
        }
        i += 1;
    }
    assert(a@ =~= b@);
    true
}

/// The pieces of `text` between the occurrences of `separator`, in order. There is
/// one piece more than there are separators; a piece may be empty.
pub open spec fn split_on(text: Seq<char>, separator: char) -> Seq<Seq<char>>
    decreases text.len(),
{
    if text.len() == 0 {
        seq![Seq::empty()]
    } else {
        let before = split_on(text.drop_last(), separator);
        if text.last() == separator {
            before.push(Seq::empty())
        } else {
            before.drop_last().push(before.last().push(text.last()))
        }
    }
}

/// There is at least one piece, and no piece holds the separator.
pub proof fn lemma_split_on(text: Seq<char>, separator: char)
    ensures
        split_on(text, separator).len() >= 1,
        forall|i: int, j: int|
            0 <= i < split_on(text, separator).len() && 0 <= j < split_on(text, separator)[i].len()
                ==> split_on(text, separator)[i][j] != separator,
    decreases text.len(),
{
    if text.len() > 0 {
        lemma_split_on(text.drop_last(), separator);
    }
}

/// The lists of a list of lists, each by its view.
pub open spec fn pieces_view(pieces: Seq<Vec<char>>) -> Seq<Seq<char>> {
    Seq::new(pieces.len(), |i: int| pieces[i]@)
}

/// Splits `text` at every occurrence of `separator`.
pub fn split_chars(text: &Vec<char>, separator: char) -> (pieces: Vec<Vec<char>>)
    ensures
        pieces_view(pieces@) == split_on(text@, separator),
        pieces.len() >= 1,
        forall|i: int, j: int|
            0 <= i < pieces.len() && 0 <= j < pieces[i].len() ==> pieces[i][j] != separator,
{
    proof {
        lemma_split_on(text@, separator);
    }
    let mut pieces: Vec<Vec<char>> = Vec::new();
    let mut piece: Vec<char> = Vec::new();
    let mut i: usize = 0;
    while i < text.len()
        invariant
            i <= text.len(),
            pieces_view(pieces@).push(piece@) == split_on(text@.take(i as int), separator),
        decreases text.len() - i,
    {
        proof {
            assert(text@.take(i + 1).drop_last() =~= text@.take(i as int));
        }
        let c = text[i];
        if c == separator {
            pieces.push(piece);
            piece = Vec::new();
        } else {
            piece.push(c);
        }
        i += 1;
    }
    assert(text@.take(i as int) =~= text@);
    let ghost old_pieces = pieces@;
    pieces.push(piece);
    assert(pieces_view(pieces@) =~= pieces_view(old_pieces).push(piece@));
    assert forall|i: int, j: int|
        0 <= i < pieces.len() && 0 <= j < pieces[i].len() implies pieces[i][j] != separator by {
        assert(pieces_view(pieces@)[i][j] == pieces[i][j]);
    }
    pieces
}

/// Whether `c` is one of the digits 0 to 9.
pub open spec fn is_digit(c: char) -> bool {
    48 <= c as u32 <= 57
}

/// The number that a list of digits writes in base ten; 0 for the empty list.
pub open spec fn decimal_value(digits: Seq<char>) -> nat
    decreases digits.len(),
{
    if digits.len() == 0 {
        0
    } else {
        (decimal_value(digits.drop_last()) * 10 + (digits.last() as u32 - 48)) as nat
    }
}

/// Whether `text` is one digit or more and nothing else.
pub open spec fn is_decimal(text: Seq<char>) -> bool {
    &&& text.len() >= 1
    &&& forall|i: int| 0 <= i < text.len() ==> is_digit(#[trigger] text[i])
}

/// The digits of a number do not write less than the digits of its front part.
pub proof fn lemma_decimal_grows(digits: Seq<char>, n: int)
    requires
        0 <= n <= digits.len(),
        forall|i: int| 0 <= i < digits.len() ==> is_digit(#[trigger] digits[i]),
    ensures
        decimal_value(digits.take(n)) <= decimal_value(digits),
    decreases digits.len() - n,
{
    if n == digits.len() {
        assert(digits.take(n) =~= digits);
    } else {
        lemma_decimal_grows(digits, n + 1);
        assert(digits.take(n + 1).drop_last() =~= digits.take(n));
    }
}

/// Reads `text` as a number in base ten that is no larger than `max`.
///
/// Returns the number if `text` is one digit or more and nothing else, and the
/// number is within `max`; `None` otherwise.
pub fn parse_decimal(text: &Vec<char>, max: u64) -> (number: Option<u64>)
    ensures
        number is Some == (is_decimal(text@) && decimal_value(text@) <= max),
        number matches Some(n) ==> n == decimal_value(text@),
{
    if text.len() == 0 {
        return None;
    }
    let mut i: usize = 0;
    while i < text.len()
        invariant
            i <= text.len(),
            forall|j: int| 0 <= j < i ==> is_digit(#[trigger] text@[j]),
        decreases text.len() - i,
    {
        let code: u32 = #[verifier::truncate] (text[i] as u32);
        if code < 48 || code > 57 {
            return None;
        }
        i += 1;
    }
    let mut value: u64 = 0;
    let mut i: usize = 0;
    while i < text.len()
        invariant
            i <= text.len(),
            is_decimal(text@),
            value == decimal_value(text@.take(i as int)),
            value <= max,
        decreases text.len() - i,
    {
        let code: u32 = #[verifier::truncate] (text[i] as u32);
        let digit: u64 = (code - 48) as u64;
        proof {
            assert(text@.take(i + 1).drop_last() =~= text@.take(i as int));
            lemma_decimal_grows(text@, i + 1);
        }
        if digit > max || value > (max - digit) / 10 {
            return None;
        }
        value = value * 10 + digit;
        i += 1;
    }
    assert(text@.take(i as int) =~= text@);
    Some(value)
}

/// The digit that stands for a number below ten.
pub open spec fn digit_char(d: nat) -> char {
    if d == 0 {
        '0'
    } else if d == 1 {
        '1'
    } else if d == 2 {
        '2'
    } else if d == 3 {
        '3'
    } else if d == 4 {
        '4'
    } else if d == 5 {
        '5'
    } else if d == 6 {
        '6'
    } else if d == 7 {
        '7'
    } else if d == 8 {
        '8'
    } else {
        '9'
    }
}

/// A number written in base ten, without leading zeros.
pub open spec fn decimal_digits(n: nat) -> Seq<char>
    decreases n,
{
    if n < 10 {
        seq![digit_char(n)]
    } else {
        decimal_digits(n / 10).push(digit_char(n % 10))
    }
}

/// The digits of a number write that number.
pub proof fn lemma_decimal_digits(n: nat)
    ensures
        is_decimal(decimal_digits(n)),
        decimal_value(decimal_digits(n)) == n,
    decreases n,
{
    let digits = decimal_digits(n);
    if n < 10 {
        assert(decimal_value(digits.drop_last()) == 0);
    } else {
        lemma_decimal_digits(n / 10);
        assert(digits.drop_last() =~= decimal_digits(n / 10));
    }
}

/// Writes a number in base ten: the digits that `parse_decimal` reads as the
/// number.
pub fn format_decimal(n: u64) -> (digits: Vec<char>)
    ensures
        digits@ == decimal_digits(n as nat),
        is_decimal(digits@),
        decimal_value(digits@) == n,
    decreases n,
{
    proof {
        lemma_decimal_digits(n as nat);
    }
    let d = n % 10;
    let c = if d == 0 {
        '0'
    } else if d == 1 {
        '1'
    } else if d == 2 {
        '2'
    } else if d == 3 {
        '3'
    } else if d == 4 {
        '4'
    } else if d == 5 {
        '5'
    } else if d == 6 {
        '6'
    } else if d == 7 {
        '7'
    } else if d == 8 {
        '8'
    } else {
        '9'
    };
    if n < 10 {
        let mut digits: Vec<char> = Vec::new();
        digits.push(c);
        digits
    } else {
        let mut digits = format_decimal(n / 10);
        digits.push(c);
        digits
    }
}

/// `text` moved to the right end of a field of `width` characters: blanks fill
/// the field in front of it, and a text that is as long as the field or longer
/// stays as it is.
pub open spec fn padded(text: Seq<char>, width: nat) -> Seq<char> {
    if text.len() >= width {
        text
    } else {
        Seq::new((width - text.len()) as nat, |i: int| ' ') + text
    }
}

/// Moves `text` to the right end of a field of `width` characters.
pub fn pad_left(text: &Vec<char>, width: usize) -> (field: Vec<char>)
    ensures
        field@ == padded(text@, width as nat),
{
    let mut field: Vec<char> = Vec::new();
    let mut i: usize = text.len();
    while i < width
        invariant
            text.len() <= i,
            text.len() < width ==> i <= width,
            text.len() >= width ==> i == text.len(),
            field@ == Seq::new((i - text.len()) as nat, |j: int| ' '),
        decreases width - i,
    {
        field.push(' ');
        assert(field@ =~= Seq::new((i + 1 - text.len()) as nat, |j: int| ' '));
        i += 1;
    }
    let mut k: usize = 0;
    let ghost blanks = field@;
    assert(blanks == Seq::new((i - text.len()) as nat, |j: int| ' '));
    assert(text.len() >= width ==> i == text.len());
    assert(text.len() < width ==> i == width);
    assert(field@ =~= blanks + text@.take(0));
    while k < text.len()
        invariant
            k <= text.len(),
            field@ == blanks + text@.take(k as int),
        decreases text.len() - k,
    {
        field.push(text[k]);
        assert(field@ =~= blanks + text@.take(k + 1));
        k += 1;
    }
    assert(text@.take(k as int) =~= text@);
    if text.len() >= width {
        assert(blanks + text@ =~= text@);
    }
    field
}

/// What `text` says as a signed number of 64 bits: an optional `+` or `-`, then
/// one digit or more, and the number within the range; `None` for anything else.
pub open spec fn parsed_i64(text: Seq<char>) -> Option<i64> {
    if text.len() >= 1 && text[0] == '-' {
        if is_decimal(text.skip(1)) && decimal_value(text.skip(1)) <= 0x8000_0000_0000_0000 {
            Some((-decimal_value(text.skip(1))) as i64)
        } else {
            None
        }
    } else {
        let digits = if text.len() >= 1 && text[0] == '+' {
            text.skip(1)
        } else {
            text
        };
        if is_decimal(digits) && decimal_value(digits) <= i64::MAX {
            Some(decimal_value(digits) as i64)
        } else {
            None
        }
    }
}

/// What `text` says as an unsigned number of 32 bits: an optional `+`, then one
/// digit or more, and the number within the range; `None` for anything else.
pub open spec fn parsed_u32(text: Seq<char>) -> Option<u32> {
    let digits = if text.len() >= 1 && text[0] == '+' {
        text.skip(1)
    } else {
        text
    };
    if is_decimal(digits) && decimal_value(digits) <= u32::MAX {
        Some(decimal_value(digits) as u32)
    } else {
        None
    }
}

/// The characters of `text` from index `from` on.
pub fn skip_chars(text: &Vec<char>, from: usize) -> (rest: Vec<char>)
    requires
        from <= text.len(),
    ensures
        rest@ == text@.skip(from as int),
{
    let mut rest: Vec<char> = Vec::new();
    let mut i: usize = from;
    while i < text.len()
        invariant
            from <= i <= text.len(),
            rest@ == text@.subrange(from as int, i as int),
        decreases text.len() - i,
    {
        rest.push(text[i]);
        i += 1;
    }
    rest
}

/// Reads `text` as a signed number of 64 bits.
pub fn parse_i64(text: &Vec<char>) -> (number: Option<i64>)
    ensures
        number == parsed_i64(text@),
{
    if text.len() >= 1 && text[0] == '-' {
        match parse_decimal(&skip_chars(text, 1), 0x8000_0000_0000_0000) {
            Some(n) => if n == 0x8000_0000_0000_0000 {
                Some(i64::MIN)
            } else {
                Some(-(n as i64))
            },
            None => None,
        }
    } else {
        let digits = if text.len() >= 1 && text[0] == '+' {
            skip_chars(text, 1)
        } else {
            skip_chars(text, 0)
        };
        assert(text@.skip(0) =~= text@);
        match parse_decimal(&digits, 0x7fff_ffff_ffff_ffff) {
            Some(n) => Some(n as i64),
            None => None,
        }
    }
}

/// Reads `text` as an unsigned number of 32 bits.
pub fn parse_u32(text: &Vec<char>) -> (number: Option<u32>)
    ensures
        number == parsed_u32(text@),
{
    let digits = if text.len() >= 1 && text[0] == '+' {
        skip_chars(text, 1)
    } else {
        skip_chars(text, 0)
    };
    assert(text@.skip(0) =~= text@);
    match parse_decimal(&digits, 0xffff_ffff) {
        Some(n) => Some(n as u32),
        None => None,
    }
}

/// Whether `c` is `+` or `-`.
pub open spec fn is_sign(c: char) -> bool {
    c == '+' || c == '-'
}

/// The index of the first character at or behind `from` that is no digit; the
/// length of the text where only digits follow.
pub open spec fn digits_end(text: Seq<char>, from: int) -> int
    decreases text.len() - from,
{
    if 0 <= from < text.len() && is_digit(text[from]) {
        digits_end(text, from + 1)
    } else {
        from
    }
}

/// The code of a character, with that of the small letter for a capital letter
/// from A to Z.
pub open spec fn lowered(c: char) -> u32 {
    if 65 <= c as u32 <= 90 {
        (c as u32 + 32) as u32
    } else {
        c as u32
    }
}

/// Whether `text` is `word` but for the case of its letters. `word` is written
/// in small letters.
pub open spec fn is_word(text: Seq<char>, word: Seq<char>) -> bool {
    &&& text.len() == word.len()
    &&& forall|i: int| 0 <= i < text.len() ==> lowered(#[trigger] text[i]) == word[i] as u32
}

/// Whether `text` is an exponent: `e` or `E`, an optional sign, and one digit or
/// more.
pub open spec fn is_exponent(text: Seq<char>) -> bool {
    &&& text.len() >= 2
    &&& (text[0] == 'e' || text[0] == 'E')
    &&& is_decimal(
        if is_sign(text[1]) {
            text.skip(2)
        } else {
            text.skip(1)
        },
    )
}

/// Whether `text` is a number with an optional fraction and exponent: digits, an
/// optional point with digits behind it, at least one digit before or behind the
/// point, and an optional exponent.
pub open spec fn is_number(text: Seq<char>) -> bool {
    let whole = digits_end(text, 0);
    let point = whole < text.len() && text[whole] == '.';
    let end = if point {
        digits_end(text, whole + 1)
    } else {
        whole
    };
    let digits = if point {
        end - 1
    } else {
        end
    };
    &&& digits >= 1
    &&& (end == text.len() || is_exponent(text.skip(end)))
}

/// Whether `text` is what the standard library reads as a floating-point number:
/// an optional sign, then `inf`, `infinity` or `nan` in letters of any case, or a
/// number with an optional fraction and exponent.
pub open spec fn is_float_literal(text: Seq<char>) -> bool {
    let body = if text.len() >= 1 && is_sign(text[0]) {
        text.skip(1)
    } else {
        text
    };
    is_word(body, "inf"@) || is_word(body, "infinity"@) || is_word(body, "nan"@) || is_number(
        body,
    )
}

/// The index of the first character at or behind `from` that is no digit.
pub fn skip_digits(text: &Vec<char>, from: usize) -> (end: usize)
    requires
        from <= text.len(),
    ensures
        end == digits_end(text@, from as int),
        from <= end <= text.len(),
{
    let mut end: usize = from;
    while end < text.len()
        invariant
            from <= end <= text.len(),
            digits_end(text@, from as int) == digits_end(text@, end as int),
        decreases text.len() - end,
    {
        let code: u32 = #[verifier::truncate] (text[end] as u32);
        if code < 48 || code > 57 {
            return end;
        }
        end += 1;
    }
    end
}

/// Whether `text` is one digit or more and nothing else.
pub fn is_decimal_text(text: &Vec<char>) -> (decimal: bool)
    ensures
        decimal == is_decimal(text@),
{
    if text.len() == 0 {
        return false;
    }
    let end = skip_digits(text, 0);
    proof {
        lemma_digits_end(text@, 0);
    }
    end == text.len()
}

/// From `from` to `digits_end` there are digits alone, and no digit stands at
/// `digits_end`.
pub proof fn lemma_digits_end(text: Seq<char>, from: int)
    requires
        0 <= from <= text.len(),
    ensures
        from <= digits_end(text, from) <= text.len(),
        forall|i: int| from <= i < digits_end(text, from) ==> is_digit(#[trigger] text[i]),
        digits_end(text, from) < text.len() ==> !is_digit(text[digits_end(text, from)]),
    decreases text.len() - from,
{
    if from < text.len() && is_digit(text[from]) {
        lemma_digits_end(text, from + 1);
    }
}

/// Whether `text` is `word` but for the case of its letters.
pub fn is_word_text(text: &Vec<char>, word: &str) -> (same: bool)
    ensures
        same == is_word(text@, word@),
{
    let letters = chars_of(word);
    if text.len() != letters.len() {
        return false;
    }
    let mut i: usize = 0;
    while i < text.len()
        invariant
            i <= text.len(),
            text.len() == letters.len(),
            letters@ == word@,
            forall|j: int| 0 <= j < i ==> lowered(#[trigger] text@[j]) == letters@[j] as u32,
        decreases text.len() - i,
    {
        let code: u32 = #[verifier::truncate] (text[i] as u32);
        let small: u32 = if 65 <= code && code <= 90 {
            code + 32
        } else {
            code
        };
        let letter: u32 = #[verifier::truncate] (letters[i] as u32);
        if small != letter {
            assert(lowered(text@[i as int]) != word@[i as int] as u32);
            return false;
        }
        i += 1;
    }
    true
}

/// Whether `text` is what the standard library reads as a floating-point number.
pub fn is_float_text(text: &Vec<char>) -> (float: bool)
    ensures
        float == is_float_literal(text@),
{
    let signed = text.len() >= 1 && (text[0] == '+' || text[0] == '-');
    let body = if signed {
        skip_chars(text, 1)
    } else {
        skip_chars(text, 0)
    };
    assert(text@.skip(0) =~= text@);
    if is_word_text(&body, "inf") || is_word_text(&body, "infinity") || is_word_text(&body, "nan") {
        return true;
    }
    let whole = skip_digits(&body, 0);
    let point = whole < body.len() && body[whole] == '.';
    let end = if point {
        skip_digits(&body, whole + 1)
    } else {
        whole
    };
    let digits = if point {
        end - 1
    } else {
        end
    };
    if digits < 1 {
        return false;
    }
    if end == body.len() {
        return true;
    }
    let rest = skip_chars(&body, end);
    if rest.len() < 2 || !(rest[0] == 'e' || rest[0] == 'E') {
        return false;
    }
    let exponent = if rest[1] == '+' || rest[1] == '-' {
        skip_chars(&rest, 2)
    } else {
        skip_chars(&rest, 1)
    };
    is_decimal_text(&exponent)
}

} // verus!
