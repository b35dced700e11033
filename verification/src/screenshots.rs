//! Names of saved screenshots.

use vstd::prelude::*;

verus! {

/// Number of names that are tried before the last resort.
pub const NAME_ATTEMPTS: u32 = 9_999;

/// A local date and time.
#[derive(Clone, Copy, Debug, PartialEq, Eq, Structural)]
pub struct LocalTime {
    pub year: u16,
    pub month: u16,
    pub day: u16,
    pub hour: u16,
    pub minute: u16,
    pub second: u16,
}

/// The character of a decimal digit.
pub open spec fn digit(value: int) -> char {
    if value == 0 {
        '0'
    } else if value == 1 {
        '1'
    } else if value == 2 {
        '2'
    } else if value == 3 {
        '3'
    } else if value == 4 {
        '4'
    } else if value == 5 {
        '5'
    } else if value == 6 {
        '6'
    } else if value == 7 {
        '7'
    } else if value == 8 {
        '8'
    } else {
        '9'
    }
}

/// A number in decimal, with zeros in front up to `width` digits.
pub open spec fn decimal(value: nat, width: nat) -> Seq<char>
    decreases value, width,
{
    if value < 10 && width <= 1 {
        seq![digit(value as int)]
    } else if value < 10 {
        decimal(0, (width - 1) as nat).push(digit(value as int))
    } else {
        decimal(value / 10, if width > 0 { (width - 1) as nat } else { 0 }).push(
            digit((value % 10) as int),
        )
    }
}

fn digit_char(value: u32) -> (result: char)
    ensures
        result == digit(value as int),
{
    match value {
        0 => '0',
        1 => '1',
        2 => '2',
        3 => '3',
        4 => '4',
        5 => '5',
        6 => '6',
        7 => '7',
        8 => '8',
        _ => '9',
    }
}

fn push_decimal(text: &mut String, value: u32, width: u32)
    ensures
        final(text)@ == old(text)@ + decimal(value as nat, width as nat),
    decreases value, width,
{
    if value < 10 && width <= 1 {
        text.push(digit_char(value));
    } else if value < 10 {
        push_decimal(text, 0, width - 1);
        text.push(digit_char(value));
    } else {
        let shorter: u32 = if width > 0 { width - 1 } else { 0 };
        push_decimal(text, value / 10, shorter);
        text.push(digit_char(value % 10));
    }
    assert(text@ =~= old(text)@ + decimal(value as nat, width as nat));
}

fn push_text(text: &mut String, part: &str)
    ensures
        final(text)@ == old(text)@ + part@,
{
    text.append(part);
}

/// The name of a screenshot without its number and extension.
pub open spec fn stem(time: LocalTime) -> Seq<char> {
    "Screenshot "@ + decimal(time.year as nat, 4) + "-"@ + decimal(time.month as nat, 2) + "-"@
        + decimal(time.day as nat, 2) + " "@ + decimal(time.hour as nat, 2) + decimal(
        time.minute as nat,
        2,
    ) + decimal(time.second as nat, 2)
}

/// The name that is tried at the given attempt, counted from one: without a number first,
/// and a last resort once all numbers have been tried.
pub open spec fn file_name(time: LocalTime, attempt: u32) -> Seq<char> {
    if attempt <= 1 {
        stem(time) + ".png"@
    } else if attempt <= NAME_ATTEMPTS {
        stem(time) + " ("@ + decimal(attempt as nat, 1) + ").png"@
    } else {
        stem(time) + " (duplicate).png"@
    }
}

fn push_stem(text: &mut String, time: LocalTime)
    requires
        old(text)@.len() == 0,
    ensures
        final(text)@ == stem(time),
{
    push_text(text, "Screenshot ");
    push_decimal(text, time.year as u32, 4);
    push_text(text, "-");
    push_decimal(text, time.month as u32, 2);
    push_text(text, "-");
    push_decimal(text, time.day as u32, 2);
    push_text(text, " ");
    push_decimal(text, time.hour as u32, 2);
    push_decimal(text, time.minute as u32, 2);
    push_decimal(text, time.second as u32, 2);
    assert(text@ =~= stem(time));
}

/// The name of a screenshot at the given attempt.
pub fn screenshot_name(time: LocalTime, attempt: u32) -> (result: String)
    ensures
        result@ == file_name(time, attempt),
{
    let mut name = String::new();
    push_stem(&mut name, time);
    if attempt <= 1 {
        push_text(&mut name, ".png");
    } else if attempt <= NAME_ATTEMPTS {
        push_text(&mut name, " (");
        push_decimal(&mut name, attempt, 1);
        push_text(&mut name, ").png");
    } else {
        push_text(&mut name, " (duplicate).png");
    }
    name
}

/// The attempt that follows one whose name is taken, or `None` where that name is used
/// though it is taken.
pub fn next_attempt(attempt: u32) -> (result: Option<u32>)
    ensures
        result == if attempt <= NAME_ATTEMPTS {
            Some((attempt + 1) as u32)
        } else {
            None
        },
{
    if attempt <= NAME_ATTEMPTS {
        Some(attempt + 1)
    } else {
        None
    }
}

/// Every name has the extension of PNG files.
pub proof fn law_names_have_the_png_extension(time: LocalTime, attempt: u32)
    ensures
        ({
            let name = file_name(time, attempt);
            crate::text::has_suffix(name, ".png"@)
        }),
{
    reveal_strlit(".png");
    reveal_strlit(").png");
    reveal_strlit(" (duplicate).png");
    let name = file_name(time, attempt);
    assert(name.subrange(name.len() - 4, name.len() as int) =~= ".png"@);
}

/// The number that a text of decimal digits stands for.
pub open spec fn read_decimal(text: Seq<char>) -> int
    decreases text.len(),
{
    if text.len() == 0 {
        0
    } else {
        10 * read_decimal(text.drop_last()) + (text.last() as int - '0' as int)
    }
}

/// A number in decimal reads as that number, has at least as many characters as it should,
/// and each of them is a digit.
pub proof fn law_decimals_read_as_their_number(value: nat, width: nat)
    ensures
        read_decimal(decimal(value, width)) == value,
        decimal(value, width).len() >= width,
        decimal(value, width).len() >= 1,
        forall|i: int|
            0 <= i < decimal(value, width).len() ==> '0' <= #[trigger] decimal(value, width)[i]
                <= '9',
    decreases value, width,
{
    let text = decimal(value, width);
    if value < 10 && width <= 1 {
        assert(text.drop_last() =~= Seq::<char>::empty());
        assert(read_decimal(text.drop_last()) == 0);
    } else if value < 10 {
        law_decimals_read_as_their_number(0, (width - 1) as nat);
        assert(text.drop_last() =~= decimal(0, (width - 1) as nat));
    } else {
        let shorter = if width > 0 {
            (width - 1) as nat
        } else {
            0
        };
        law_decimals_read_as_their_number(value / 10, shorter);
        assert(text.drop_last() =~= decimal(value / 10, shorter));
    }
}

proof fn lemma_two_digits(value: nat)
    requires
        value < 100,
    ensures
        decimal(value, 2).len() == 2,
{
    reveal_with_fuel(decimal, 3);
}

proof fn lemma_four_digits(value: nat)
    requires
        value < 10000,
    ensures
        decimal(value, 4).len() == 4,
{
    reveal_with_fuel(decimal, 5);
}

/// The name of a screenshot tells when it was taken: year, month, day, hour, minute and second
/// stand at their places in it.
pub proof fn law_names_tell_the_time(time: LocalTime, attempt: u32)
    requires
        time.year < 10000,
        time.month < 100,
        time.day < 100,
        time.hour < 100,
        time.minute < 100,
        time.second < 100,
    ensures
        ({
            let name = file_name(time, attempt);
            &&& name.len() >= 32
            &&& name.subrange(0, 11) == "Screenshot "@
            &&& read_decimal(name.subrange(11, 15)) == time.year
            &&& name[15] == '-'
            &&& read_decimal(name.subrange(16, 18)) == time.month
            &&& name[18] == '-'
            &&& read_decimal(name.subrange(19, 21)) == time.day
            &&& name[21] == ' '
            &&& read_decimal(name.subrange(22, 24)) == time.hour
            &&& read_decimal(name.subrange(24, 26)) == time.minute
            &&& read_decimal(name.subrange(26, 28)) == time.second
            &&& attempt <= 1 ==> name.len() == 32
            &&& attempt > 1 ==> name.len() > 32 && name[28] == ' ' && name[29] == '('
        }),
{
    reveal_strlit("Screenshot ");
    reveal_strlit("-");
    reveal_strlit(" ");
    reveal_strlit(".png");
    reveal_strlit(" (");
    reveal_strlit(").png");
    reveal_strlit(" (duplicate).png");
    let year = decimal(time.year as nat, 4);
    let month = decimal(time.month as nat, 2);
    let day = decimal(time.day as nat, 2);
    let hour = decimal(time.hour as nat, 2);
    let minute = decimal(time.minute as nat, 2);
    let second = decimal(time.second as nat, 2);
    lemma_four_digits(time.year as nat);
    lemma_two_digits(time.month as nat);
    lemma_two_digits(time.day as nat);
    lemma_two_digits(time.hour as nat);
    lemma_two_digits(time.minute as nat);
    lemma_two_digits(time.second as nat);
    law_decimals_read_as_their_number(time.year as nat, 4);
    law_decimals_read_as_their_number(time.month as nat, 2);
    law_decimals_read_as_their_number(time.day as nat, 2);
    law_decimals_read_as_their_number(time.hour as nat, 2);
    law_decimals_read_as_their_number(time.minute as nat, 2);
    law_decimals_read_as_their_number(time.second as nat, 2);
    law_decimals_read_as_their_number(attempt as nat, 1);
    let name = file_name(time, attempt);
    let front = stem(time);
    assert(front.len() == 28);
    assert(name.subrange(0, 28) =~= front);
    assert(name.subrange(0, 11) =~= "Screenshot "@);
    assert(name.subrange(11, 15) =~= year);
    assert(name.subrange(16, 18) =~= month);
    assert(name.subrange(19, 21) =~= day);
    assert(name.subrange(22, 24) =~= hour);
    assert(name.subrange(24, 26) =~= minute);
    assert(name.subrange(26, 28) =~= second);
}

/// No two attempts try the same name, but for those before the first number and those after
/// the last.
pub proof fn law_attempts_try_other_names(time: LocalTime, attempt: u32, other: u32)
    requires
        attempt < other,
    ensures
        1 <= attempt && other <= NAME_ATTEMPTS + 1 ==> file_name(time, attempt) != file_name(
            time,
            other,
        ),
        attempt > NAME_ATTEMPTS ==> file_name(time, attempt) == file_name(time, other),
{
    reveal_strlit(".png");
    reveal_strlit(" (");
    reveal_strlit(").png");
    reveal_strlit(" (duplicate).png");
    law_decimals_read_as_their_number(attempt as nat, 1);
    law_decimals_read_as_their_number(other as nat, 1);
    let front = stem(time);
    let n = front.len() as int;
    let one = file_name(time, attempt);
    let two = file_name(time, other);
    let a = decimal(attempt as nat, 1);
    let b = decimal(other as nat, 1);
    if 1 <= attempt && other <= NAME_ATTEMPTS + 1 && one == two {
        if attempt <= 1 {
            assert(one.len() == n + 4);
        } else {
            assert(one.subrange(n + 2, one.len() - 5) =~= a);
            if other <= NAME_ATTEMPTS {
                assert(two.subrange(n + 2, two.len() - 5) =~= b);
            } else {
                assert(one[n + 2] == a[0]);
                assert(two[n + 2] == 'd');
            }
        }
    }
}

} // verus!
