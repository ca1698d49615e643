//! Building text character by character, with what it says stated over sequences of characters.

use vstd::prelude::*;

use crate::double::{rounded_times_fits, times_is_bounded};
use crate::time::{milliseconds_are_close, rounding_a_close_number, seconds_of, Duration};

verus! {

/// `String::push` of the standard library: appends the character to the end of the string.
pub assume_specification[ String::push ](text: &mut String, character: char)
    ensures
        final(text)@ == old(text)@.push(character),
;

/// The decimal digit for a number below ten.
pub open spec fn digit(value: nat) -> char
    recommends
        value < 10,
{
    (48 + value) as char
}

/// A number in decimal, without leading zeros.
pub open spec fn decimal(value: nat) -> Seq<char>
    decreases value,
{
    if value < 10 {
        seq![digit(value)]
    } else {
        decimal(value / 10).push(digit(value % 10))
    }
}

/// A span in milliseconds of double precision, with three decimals.
pub open spec fn millis_text(nanos: nat) -> Seq<char> {
    let micros = seconds_of(nanos).times(1000).rounded_times(1000);
    let rest = micros % 1000;
    decimal(micros / 1000) + seq!['.', digit(rest / 100), digit(rest / 10 % 10), digit(rest % 10)]
}

/// The characters of a text.
pub fn chars_of(text: &str) -> (characters: Vec<char>)
    ensures
        characters@ == text@,
{
    let mut characters: Vec<char> = Vec::new();
    for character in walk: text.chars()
        invariant
            characters@ == walk.seq().take(walk.index()),
            walk.seq() == text@,
    {
        characters.push(character);
        assert(characters@ =~= walk.seq().take(walk.index() + 1));
    }
    assert(characters@ =~= text@);
    characters
}

fn digit_char(value: u8) -> (character: char)
    requires
        value < 10,
    ensures
        character == digit(value as nat),
{
    (48u8 + value) as char
}

/// Appends a number in decimal.
pub fn push_decimal(text: &mut String, value: u128)
    ensures
        final(text)@ == old(text)@ + decimal(value as nat),
    decreases value,
{
    let ghost before = text@;
    if value >= 10 {
        push_decimal(text, value / 10);
    }
    text.push(digit_char((value % 10) as u8));
    assert(text@ =~= before + decimal(value as nat));
}

/// Appends a span in milliseconds with three decimals.
pub fn push_millis(text: &mut String, span: Duration)
    ensures
        final(text)@ == old(text)@ + millis_text(span.nanos as nat),
{
    let ghost before = text@;
    let seconds = span.as_seconds();
    proof {
        vstd::arithmetic::power2::lemma2_to64();
        times_is_bounded(seconds@, 1000, 10);
        if seconds@.times(1000).place >= 0 {
            rounded_times_fits(seconds@.times(1000), 1000, 60, 10);
        }
    }
    let micros: u128 = seconds.times(1000).rounded_times(1000);
    let rest: u128 = micros % 1000;
    push_decimal(text, micros / 1000);
    text.push('.');
    text.push(digit_char((rest / 100) as u8));
    text.push(digit_char((rest / 10 % 10) as u8));
    text.push(digit_char((rest % 10) as u8));
    assert(text@ =~= before + millis_text(span.nanos as nat));
}

/// What a reader of decimal numbers reads.
pub open spec fn read_decimal(text: Seq<char>) -> nat
    decreases text.len(),
{
    if text.len() == 0 {
        0
    } else {
        read_decimal(text.drop_last()) * 10 + (text.last() as nat - 0x30) as nat
    }
}

/// The text is made of decimal digits.
pub open spec fn is_digits(text: Seq<char>) -> bool {
    forall|i: int| 0 <= i < text.len() ==> 0x30 <= #[trigger] text[i] as int <= 0x39
}

/// A number in decimal is read back as it was; it is all digits, and only zero begins with a zero.
pub proof fn decimals_are_read_back(value: nat)
    ensures
        read_decimal(decimal(value)) == value,
        is_digits(decimal(value)),
        decimal(value).len() > 0,
        decimal(value)[0] == '0' ==> value == 0 && decimal(value).len() == 1,
    decreases value,
{
    let text = decimal(value);
    if value >= 10 {
        decimals_are_read_back(value / 10);
        assert(text.drop_last() =~= decimal(value / 10));
    } else {
        assert(text.drop_last() =~= Seq::<char>::empty());
        assert(read_decimal(text.drop_last()) == 0);
    }
}

/// Milliseconds are spelled out with exactly three decimals, and read back as the whole number of
/// microseconds that they stand for.
pub proof fn milliseconds_have_three_decimals(nanos: nat)
    ensures
        ({
            let text = millis_text(nanos);
            let micros = seconds_of(nanos).times(1000).rounded_times(1000);
            let point = text.len() - 4;
            &&& point > 0
            &&& text[point] == '.'
            &&& is_digits(text.take(point))
            &&& is_digits(text.skip(point + 1))
            &&& read_decimal(text.take(point)) * 1000 + read_decimal(text.skip(point + 1)) == micros
        }),
{
    let micros = seconds_of(nanos).times(1000).rounded_times(1000);
    let rest = micros % 1000;
    let text = millis_text(nanos);
    let point = text.len() - 4;
    decimals_are_read_back(micros / 1000);
    assert(text.take(point) =~= decimal(micros / 1000));
    let decimals = seq![digit(rest / 100), digit(rest / 10 % 10), digit(rest % 10)];
    assert(text.skip(point + 1) =~= decimals);
    reveal_with_fuel(read_decimal, 4);
    let two = decimals.drop_last();
    let one = two.drop_last();
    assert(one.drop_last() =~= Seq::<char>::empty());
    assert(read_decimal(one) == rest / 100);
    assert(read_decimal(two) == rest / 100 * 10 + rest / 10 % 10);
    assert(read_decimal(decimals) == (rest / 100 * 10 + rest / 10 % 10) * 10 + rest % 10);
}

/// The milliseconds that are spelled out are those of the span: read back, in microseconds, they are
/// its nanoseconds over a thousand, but for one microsecond and one part in `2^43`.
pub proof fn milliseconds_are_those_of_the_span(nanos: nat)
    ensures
        ({
            let text = millis_text(nanos);
            let point = text.len() - 4;
            let micros = read_decimal(text.take(point)) * 1000 + read_decimal(
                text.skip(point + 1),
            );
            &&& 0x800_0000_0000 * (micros * 1000 - nanos) <= 0x800_0000_0000 * 1000 + nanos
            &&& 0x800_0000_0000 * (nanos - micros * 1000) <= 0x800_0000_0000 * 1000 + nanos
        }),
{
    let millis = seconds_of(nanos).times(1000);
    let micros = millis.rounded_times(1000);
    milliseconds_have_three_decimals(nanos);
    milliseconds_are_close(nanos);
    rounding_a_close_number(millis, 1000, 1_000_000_000, nanos * 1000, 0x800_0000_0000);
}

} // verus!
