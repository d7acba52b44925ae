//! What holds of trimmed, lowered and joined texts, and of numbers that are written and read.

use vstd::prelude::*;

use crate::baseten_ext::is_temperature;
use crate::number::{decimal_value, is_decimal, parsed_u64, without_plus, Float32};
use crate::text::{
    ascii_lowercase, decimal, digit, is_white_space, joined, trim, trim_end, trim_start,
};

verus! {

/// Whether a text is made of white space only.
pub open spec fn all_white(text: Seq<char>) -> bool {
    forall|i: int| 0 <= i < text.len() ==> is_white_space(#[trigger] text[i])
}

/// White space is the tab and what follows it up to the carriage return, the space and the
/// spaces of other widths, and what separates lines and paragraphs.
pub proof fn law_white_space_is_what_unicode_lists(c: char)
    ensures
        is_white_space(c) == {
            let code = c as u32;
            ||| 9 <= code <= 13
            ||| code == 32
            ||| code == 133
            ||| code == 160
            ||| code == 5760
            ||| 8192 <= code <= 8202
            ||| code == 8232
            ||| code == 8233
            ||| code == 8239
            ||| code == 8287
            ||| code == 12288
        },
{
}

proof fn lemma_trim_start(text: Seq<char>) -> (lead: Seq<char>)
    ensures
        text == lead + trim_start(text),
        all_white(lead),
        trim_start(text).len() > 0 ==> !is_white_space(trim_start(text).first()),
    decreases text.len(),
{
    if text.len() > 0 && is_white_space(text.first()) {
        let rest = lemma_trim_start(text.drop_first());
        let lead = seq![text.first()] + rest;
        assert(text =~= seq![text.first()] + text.drop_first());
        assert(lead + trim_start(text) =~= seq![text.first()] + (rest + trim_start(text)));
        assert forall|i: int| 0 <= i < lead.len() implies is_white_space(#[trigger] lead[i]) by {
            if i > 0 {
                assert(lead[i] == rest[i - 1]);
            }
        }
        lead
    } else {
        assert(text =~= Seq::<char>::empty() + text);
        seq![]
    }
}

proof fn lemma_trim_end(text: Seq<char>) -> (trail: Seq<char>)
    ensures
        text == trim_end(text) + trail,
        all_white(trail),
        trim_end(text).len() > 0 ==> {
            &&& !is_white_space(trim_end(text).last())
            &&& trim_end(text).first() == text.first()
        },
    decreases text.len(),
{
    if text.len() > 0 && is_white_space(text.last()) {
        let rest = lemma_trim_end(text.drop_last());
        let trail = rest.push(text.last());
        assert(text =~= text.drop_last().push(text.last()));
        assert(trim_end(text) + trail =~= (trim_end(text) + rest).push(text.last()));
        assert forall|i: int| 0 <= i < trail.len() implies is_white_space(#[trigger] trail[i]) by {
            if i < rest.len() {
                assert(trail[i] == rest[i]);
            }
        }
        trail
    } else {
        assert(text =~= text + Seq::<char>::empty());
        seq![]
    }
}

/// Trimming takes white space off both ends of a text, and nothing else: what is left stands in
/// the text with only white space around it, and neither starts nor ends with white space.
pub proof fn law_trimming_takes_white_ends_off(text: Seq<char>)
    ensures
        exists|lead: Seq<char>, trail: Seq<char>|
            {
                &&& text == #[trigger] (lead + trim(text) + trail)
                &&& all_white(lead)
                &&& all_white(trail)
            },
        trim(text).len() > 0 ==> {
            &&& !is_white_space(trim(text)[0])
            &&& !is_white_space(trim(text)[trim(text).len() - 1])
        },
{
    let lead = lemma_trim_start(text);
    let trail = lemma_trim_end(trim_start(text));
    assert(text =~= lead + trim(text) + trail);
}

/// Lowering a text keeps its length and every character but the ASCII capitals, each of which
/// becomes the letter that stands 32 places behind it.
pub proof fn law_lowering_changes_capitals_only(text: Seq<char>)
    ensures
        ascii_lowercase(text).len() == text.len(),
        forall|i: int|
            0 <= i < text.len() ==> {
                let code = text[i] as u32;
                (#[trigger] ascii_lowercase(text)[i]) as u32 == if 65 <= code <= 90 {
                    code + 32
                } else {
                    code as int
                }
            },
{
}

/// Joined texts hold every text in its place: none gives nothing, one gives itself, and what is
/// joined of two runs is what is joined of each, with the separator between them.
pub proof fn law_joining_keeps_every_text(
    first: Seq<Seq<char>>,
    second: Seq<Seq<char>>,
    separator: Seq<char>,
)
    ensures
        joined(Seq::empty(), separator) == Seq::<char>::empty(),
        first.len() == 1 ==> joined(first, separator) == first[0],
        first.len() > 0 && second.len() > 0 ==> joined(first + second, separator) == joined(
            first,
            separator,
        ) + separator + joined(second, separator),
    decreases second.len(),
{
    if first.len() > 0 && second.len() > 0 {
        let all = first + second;
        assert(all.drop_last() =~= first + second.drop_last());
        assert(all.last() == second.last());
        if second.len() == 1 {
            assert(first + second.drop_last() =~= first);
        } else {
            law_joining_keeps_every_text(first, second.drop_last(), separator);
            let left = joined(first, separator);
            let rest = joined(second.drop_last(), separator);
            assert((left + separator + rest) + separator + second.last() =~= left + separator + (
            rest + separator + second.last()));
        }
    }
}

/// The decimal form of a number is made of digits and denotes the number. It starts with a zero
/// only where it is the form of zero.
pub proof fn law_decimal_forms_denote_their_numbers(n: nat)
    ensures
        is_decimal(decimal(n)),
        decimal_value(decimal(n)) == n,
        n > 0 ==> decimal(n)[0] != '0',
        n == 0 ==> decimal(n).len() == 1,
    decreases n,
{
    if n < 10 {
        assert(decimal(n).drop_last() =~= Seq::<char>::empty());
        assert(decimal_value(decimal(n).drop_last()) == 0);
        assert(decimal(n).last() == digit(n));
    } else {
        let rest = decimal(n / 10);
        law_decimal_forms_denote_their_numbers(n / 10);
        assert(decimal(n).drop_last() =~= rest);
        assert forall|i: int| 0 <= i < decimal(n).len() implies '0' <= #[trigger] decimal(n)[i]
            <= '9' by {
            if i < rest.len() {
                assert(decimal(n)[i] == rest[i]);
            }
        }
    }
}

/// A number that is written in decimal is read back, with a plus sign before it or not. No text
/// with another character in it, and none without digits, is read as a number.
pub proof fn law_written_numbers_are_read_back(n: u64, text: Seq<char>)
    ensures
        parsed_u64(decimal(n as nat)) == Some(n),
        parsed_u64(seq!['+'] + decimal(n as nat)) == Some(n),
        parsed_u64(text) is Some ==> {
            &&& exists|i: int| 0 <= i < text.len() && '0' <= #[trigger] text[i] <= '9'
            &&& forall|i: int|
                0 <= i < text.len() ==> ('0' <= #[trigger] text[i] <= '9') || (i == 0 && text[i]
                    == '+')
        },
{
    let written = decimal(n as nat);
    law_decimal_forms_denote_their_numbers(n as nat);
    assert('0' <= written[0] <= '9');
    assert((seq!['+'] + written).drop_first() =~= written);
    if parsed_u64(text) is Some {
        let digits = without_plus(text);
        assert('0' <= digits[0] <= '9');
        if text[0] == '+' {
            assert(digits[0] == text[1]);
            assert forall|i: int| 0 < i < text.len() implies '0' <= #[trigger] text[i] <= '9' by {
                assert(digits[i - 1] == text[i]);
            }
        }
    }
}

/// Two values in single precision are the same exactly if they are numbers and have the same
/// bits, or are zeros of either sign. What is no number is not even the same as itself.
pub proof fn law_same_numbers_have_the_same_bits(one: Float32, other: Float32)
    ensures
        one.is_nan() <==> 0x7f80_0001 <= one.bits <= 0x7fff_ffff || one.bits >= 0xff80_0001,
        one.is_nan() || other.is_nan() ==> !one.is_same(other) && !other.is_same(one),
        one.bits == other.bits && !one.is_nan() ==> one.is_same(other),
        (one.bits == 0 || one.bits == 0x8000_0000) && (other.bits == 0 || other.bits == 0x8000_0000)
            ==> one.is_same(other),
        one.is_same(other) ==> other.is_same(one),
        one.is_same(other) && one.bits != other.bits ==> one.bits + other.bits == 0x8000_0000,
{
}

/// A temperature is a number from 0 to 2 by its bits: those of no number, of a number below zero
/// or of one above two are refused, and those of either zero and of two are not.
pub proof fn law_temperatures_are_from_zero_to_two(bits: u32)
    ensures
        is_temperature(bits) ==> !(Float32 { bits }).is_nan(),
        is_temperature(bits) && bits > 0x4000_0000 ==> bits == 0x8000_0000,
        bits <= 0x4000_0000 ==> is_temperature(bits),
        is_temperature(0x8000_0000),
{
}

} // verus!
