//! Text helpers: comparison, trimming, case folding and decimal rendering,
//! each stated over the sequence of characters of a string.
use vstd::prelude::*;
use vstd::utf8::{decode_utf8, valid_utf8};

verus! {

/// `str::eq`: two string slices are equal exactly when they hold the same
/// characters in the same order.
pub assume_specification[ <str as PartialEq>::eq ](a: &str, b: &str) -> (same: bool)
    ensures
        same == (a@ == b@),
;

/// `String::push`: appends one character.
pub assume_specification[ String::push ](text: &mut String, c: char)
    ensures
        final(text)@ == old(text)@.push(c),
;

/// The text that `String::from_utf8_lossy` makes of `bytes`.
pub uninterp spec fn lossy_text(bytes: Seq<u8>) -> Seq<char>;

/// `String::from_utf8_lossy`: valid UTF-8 is decoded as it is. What stands in
/// the place of invalid sequences is left to the name.
#[verifier::external_body]
pub(crate) fn decode_lossy(bytes: &[u8]) -> (text: String)
    ensures
        text@ == lossy_text(bytes@),
        valid_utf8(bytes@) ==> text@ == decode_utf8(bytes@),
{
    String::from_utf8_lossy(bytes).into_owned()
}

/// `String::from_utf8`: succeeds exactly on valid UTF-8, and then gives the
/// decoded text.
#[verifier::external_body]
pub(crate) fn decode_strict(bytes: Vec<u8>) -> (text: Option<String>)
    ensures
        text is Some <==> valid_utf8(bytes@),
        text matches Some(t) ==> t@ == decode_utf8(bytes@),
{
    String::from_utf8(bytes).ok()
}

/// The characters of an optional string.
pub open spec fn text_view(text: Option<String>) -> Option<Seq<char>> {
    match text {
        Some(t) => Some(t@),
        None => None,
    }
}

/// The characters of a string.
pub fn chars_of(text: &str) -> (chars: Vec<char>)
    ensures
        chars@ == text@,
{
    let mut chars: Vec<char> = Vec::new();
    for c in it: text.chars()
        invariant
            it.seq() == text@,
            chars@ == text@.take(it.index() as int),
    {
        chars.push(c);
    }
    chars
}

/// The string made of `chars[from..to]`.
pub fn text_of(chars: &Vec<char>, from: usize, to: usize) -> (text: String)
    requires
        from <= to <= chars@.len(),
    ensures
        text@ == chars@.subrange(from as int, to as int),
{
    let mut text = String::new();
    let mut i: usize = from;
    while i < to
        invariant
            from <= i <= to <= chars@.len(),
            text@ == chars@.subrange(from as int, i as int),
        decreases to - i,
    {
        text.push(chars[i]);
        i += 1;
    }
    text
}

/// `a` followed by `b`.
pub fn joined(a: &str, b: &str) -> (text: String)
    ensures
        text@ == a@ + b@,
{
    let mut text = a.to_owned();
    text.append(b);
    text
}

/// The lower-case form of an ASCII letter; any other character as it is.
pub open spec fn lower_char(c: char) -> char {
    if 'A' <= c && c <= 'Z' {
        (c as u8 + 32) as u8 as char
    } else {
        c
    }
}

/// A text with its ASCII letters in lower case.
pub open spec fn lowered(text: Seq<char>) -> Seq<char> {
    text.map_values(|c: char| lower_char(c))
}

/// The text with its ASCII letters in lower case.
pub fn to_lower(text: &str) -> (lower: String)
    ensures
        lower@ == lowered(text@),
{
    let chars = chars_of(text);
    let mut lower = String::new();
    let mut i: usize = 0;
    while i < chars.len()
        invariant
            chars@ == text@,
            i <= chars@.len(),
            lower@ == lowered(text@).take(i as int),
        decreases chars@.len() - i,
    {
        let c = chars[i];
        if 'A' <= c && c <= 'Z' {
            lower.push((c as u8 + 32) as char);
        } else {
            lower.push(c);
        }
        i += 1;
        assert(lower@ =~= lowered(text@).take(i as int));
    }
    assert(lowered(text@).take(i as int) =~= lowered(text@));
    lower
}

/// `text` without the run of `c` at its end.
pub open spec fn trimmed_end(text: Seq<char>, c: char) -> Seq<char>
    decreases text.len(),
{
    if text.len() > 0 && text.last() == c {
        trimmed_end(text.drop_last(), c)
    } else {
        text
    }
}

/// `text` without the run of `c` at its start.
pub open spec fn trimmed_start(text: Seq<char>, c: char) -> Seq<char>
    decreases text.len(),
{
    if text.len() > 0 && text.first() == c {
        trimmed_start(text.drop_first(), c)
    } else {
        text
    }
}

/// `text` without the runs of `c` at its end and at its start.
pub open spec fn trimmed(text: Seq<char>, c: char) -> Seq<char> {
    trimmed_start(trimmed_end(text, c), c)
}

/// `text` without the run of `c` at its end.
pub fn trim_end(text: &str, c: char) -> (rest: String)
    ensures
        rest@ == trimmed_end(text@, c),
{
    let chars = chars_of(text);
    let mut end: usize = chars.len();
    assert(text@.take(end as int) =~= text@);
    while end > 0 && chars[end - 1] == c
        invariant
            chars@ == text@,
            end <= chars@.len(),
            trimmed_end(text@.take(end as int), c) == trimmed_end(text@, c),
        decreases end,
    {
        assert(text@.take(end as int).drop_last() =~= text@.take(end - 1));
        end -= 1;
    }
    assert(text@.take(end as int) =~= chars@.subrange(0, end as int));
    text_of(&chars, 0, end)
}

/// `text` without the runs of `c` at its end and at its start.
pub fn trim(text: &str, c: char) -> (rest: String)
    ensures
        rest@ == trimmed(text@, c),
{
    let ended = trim_end(text, c);
    let chars = chars_of(ended.as_str());
    let mut start: usize = 0;
    assert(ended@.skip(0) =~= ended@);
    while start < chars.len() && chars[start] == c
        invariant
            chars@ == ended@,
            start <= chars@.len(),
            trimmed_start(ended@.skip(start as int), c) == trimmed_start(ended@, c),
        decreases chars@.len() - start,
    {
        assert(ended@.skip(start as int).drop_first() =~= ended@.skip(start + 1));
        start += 1;
    }
    assert(ended@.skip(start as int) =~= chars@.subrange(start as int, chars@.len() as int));
    let len = chars.len();
    text_of(&chars, start, len)
}

/// The digit character of a number below ten.
pub open spec fn digit_char(digit: nat) -> char {
    (digit as u8 + 48) as u8 as char
}

/// A natural number in decimal, without leading zeros.
pub open spec fn decimal(n: nat) -> Seq<char>
    decreases n,
{
    if n < 10 {
        seq![digit_char(n)]
    } else {
        decimal(n / 10).push(digit_char(n % 10))
    }
}

/// An integer in decimal, with a minus sign when it is negative.
pub open spec fn signed_decimal(i: int) -> Seq<char> {
    if i < 0 {
        seq!['-'] + decimal((-i) as nat)
    } else {
        decimal(i as nat)
    }
}

/// A decimal number consists of digits.
pub proof fn lemma_decimal_digits(n: nat)
    ensures
        decimal(n).len() > 0,
        forall|i: int| 0 <= i < decimal(n).len() ==> '0' <= #[trigger] decimal(n)[i] <= '9',
    decreases n,
{
    if n >= 10 {
        lemma_decimal_digits(n / 10);
    }
}

/// No two numbers have the same decimal form.
pub proof fn law_decimal_is_unambiguous(m: nat, n: nat)
    requires
        decimal(m) == decimal(n),
    ensures
        m == n,
    decreases m,
{
    lemma_decimal_digits(m / 10);
    lemma_decimal_digits(n / 10);
    assert(decimal(m).last() == digit_char(m % 10));
    assert(decimal(n).last() == digit_char(n % 10));
    assert(m % 10 == n % 10);
    if m >= 10 && n >= 10 {
        assert(decimal(m).drop_last() =~= decimal(m / 10));
        assert(decimal(n).drop_last() =~= decimal(n / 10));
        law_decimal_is_unambiguous(m / 10, n / 10);
    }
}

/// No two integers have the same decimal form.
pub proof fn law_signed_decimal_is_unambiguous(i: int, j: int)
    requires
        signed_decimal(i) == signed_decimal(j),
    ensures
        i == j,
{
    let a = if i < 0 {
        (-i) as nat
    } else {
        i as nat
    };
    let b = if j < 0 {
        (-j) as nat
    } else {
        j as nat
    };
    lemma_decimal_digits(a);
    lemma_decimal_digits(b);
    assert(signed_decimal(i)[0] == if i < 0 {
        '-'
    } else {
        decimal(a)[0]
    });
    assert(signed_decimal(j)[0] == if j < 0 {
        '-'
    } else {
        decimal(b)[0]
    });
    if i < 0 {
        assert(signed_decimal(i).skip(1) =~= decimal(a));
        assert(signed_decimal(j).skip(1) =~= decimal(b));
    }
    law_decimal_is_unambiguous(a, b);
}

/// A number in decimal.
pub fn to_decimal(n: u64) -> (text: String)
    ensures
        text@ == decimal(n as nat),
    decreases n,
{
    let digit = ((n % 10) as u8 + 48) as char;
    if n < 10 {
        let mut text = String::new();
        text.push(digit);
        assert(text@ =~= decimal(n as nat));
        text
    } else {
        let mut text = to_decimal(n / 10);
        text.push(digit);
        text
    }
}

/// A signed number in decimal.
pub fn to_signed_decimal(i: i64) -> (text: String)
    ensures
        text@ == signed_decimal(i as int),
{
    if i < 0 {
        let size: u64 = if i == i64::MIN { 0x8000_0000_0000_0000 } else { (-i) as u64 };
        let digits = to_decimal(size);
        let mut text = String::new();
        text.push('-');
        text.append(digits.as_str());
        assert(text@ =~= signed_decimal(i as int));
        text
    } else {
        to_decimal(i as u64)
    }
}

// ---------------------------------------------------------------------------
// What these do to a text.
// ---------------------------------------------------------------------------

/// Trimming at the end takes away a run of the character, all of it and nothing
/// else.
pub proof fn law_trimmed_end_takes_the_run(text: Seq<char>, c: char)
    ensures
        trimmed_end(text, c).len() <= text.len(),
        text.take(trimmed_end(text, c).len() as int) == trimmed_end(text, c),
        forall|i: int| trimmed_end(text, c).len() <= i < text.len() ==> #[trigger] text[i] == c,
        trimmed_end(text, c).len() > 0 ==> trimmed_end(text, c).last() != c,
    decreases text.len(),
{
    if text.len() > 0 && text.last() == c {
        let shorter = text.drop_last();
        law_trimmed_end_takes_the_run(shorter, c);
        let rest = trimmed_end(shorter, c);
        assert(text.take(rest.len() as int) =~= shorter.take(rest.len() as int));
        assert forall|i: int| rest.len() <= i < text.len() implies #[trigger] text[i] == c by {
            if i < shorter.len() {
                assert(shorter[i] == c);
            }
        }
    } else {
        assert(text.take(text.len() as int) =~= text);
    }
}

/// Trimming at the start takes away a run of the character, all of it and nothing
/// else.
pub proof fn law_trimmed_start_takes_the_run(text: Seq<char>, c: char)
    ensures
        trimmed_start(text, c).len() <= text.len(),
        text.skip(text.len() - trimmed_start(text, c).len()) == trimmed_start(text, c),
        forall|i: int|
            0 <= i < text.len() - trimmed_start(text, c).len() ==> #[trigger] text[i] == c,
        trimmed_start(text, c).len() > 0 ==> trimmed_start(text, c).first() != c,
    decreases text.len(),
{
    if text.len() > 0 && text.first() == c {
        let shorter = text.drop_first();
        law_trimmed_start_takes_the_run(shorter, c);
        let rest = trimmed_start(shorter, c);
        assert(text.skip(text.len() - rest.len()) =~= shorter.skip(shorter.len() - rest.len()));
        assert forall|i: int| 0 <= i < text.len() - rest.len() implies #[trigger] text[i] == c by {
            if i > 0 {
                assert(shorter[i - 1] == c);
            }
        }
    } else {
        assert(text.skip(0) =~= text);
    }
}

/// A text that neither starts nor ends with the character stays as it is, with
/// runs of the character around it or without.
pub proof fn law_trimmed_is_what_stands_inside(before: nat, text: Seq<char>, after: nat, c: char)
    requires
        text.len() > 0,
        text.first() != c,
        text.last() != c,
    ensures
        trimmed(Seq::new(before, |i: int| c) + text + Seq::new(after, |i: int| c), c) == text,
    decreases before + after,
{
    let front = Seq::new(before, |i: int| c);
    let back = Seq::new(after, |i: int| c);
    let whole = front + text + back;
    law_trimmed_end_takes_the_run(whole, c);
    let ended = trimmed_end(whole, c);
    let kept = before + text.len();
    assert(whole[kept - 1] == text.last());
    if ended.len() > kept {
        assert(ended.last() == whole.take(ended.len() as int).last());
        assert(whole[ended.len() - 1] == c);
    }
    assert(ended.len() == kept);
    assert(ended =~= front + text);
    law_trimmed_start_takes_the_run(ended, c);
    let rest = trimmed_start(ended, c);
    assert(ended[before as int] == text.first());
    if rest.len() > text.len() {
        assert(rest.first() == ended.skip(ended.len() - rest.len())[0]);
        assert(ended[ended.len() - rest.len()] == c);
    }
    if rest.len() < text.len() {
        assert(ended[before as int] == c);
    }
    assert(rest =~= text);
}

/// Lowering a text changes its capital ASCII letters, each into the small letter
/// 32 places on, and nothing else.
pub proof fn law_lowered_changes_only_capitals(text: Seq<char>, i: int)
    requires
        0 <= i < text.len(),
    ensures
        lowered(text).len() == text.len(),
        'A' <= text[i] <= 'Z' ==> lowered(text)[i] as int == text[i] as int + 32,
        !('A' <= text[i] <= 'Z') ==> lowered(text)[i] == text[i],
        !('A' <= lowered(text)[i] <= 'Z'),
        lowered(lowered(text)) == lowered(text),
{
    let once = lowered(text);
    assert forall|k: int| 0 <= k < text.len() implies lowered(once)[k] == once[k] by {
        assert(!('A' <= once[k] <= 'Z'));
    }
    assert(lowered(once) =~= once);
}

/// A negative number is written as a minus sign and the digits of its size.
pub proof fn law_sign_goes_first(size: nat)
    ensures
        signed_decimal(size as int) == decimal(size),
        size > 0 ==> signed_decimal(-(size as int)) == seq!['-'] + decimal(size),
{
}

} // verus!
