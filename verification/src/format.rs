use vstd::prelude::*;
use crate::text::push_char;

verus! {

/// What is appended to outgoing text before it is sent.
#[derive(Debug, Clone, Copy, PartialEq, Eq, Structural)]
pub enum LineEnding {
    NoEnding,
    Lf,
    Cr,
    CrLf,
}

impl LineEnding {
    /// The bytes that this line ending appends.
    pub open spec fn spec_bytes(self) -> Seq<u8> {
        match self {
            LineEnding::NoEnding => seq![],
            LineEnding::Lf => seq![10u8],
            LineEnding::Cr => seq![13u8],
            LineEnding::CrLf => seq![13u8, 10u8],
        }
    }

    pub fn as_bytes(&self) -> (bytes: &'static [u8])
        ensures
            bytes@ == self.spec_bytes(),
    {
        let text: &'static str = match self {
            LineEnding::NoEnding => "",
            LineEnding::Lf => "\n",
            LineEnding::Cr => "\r",
            LineEnding::CrLf => "\r\n",
        };
        proof {
            reveal_strlit("");
            reveal_strlit("\n");
            reveal_strlit("\r");
            reveal_strlit("\r\n");
            vstd::string::is_ascii_spec_bytes(text);
        }
        text.as_bytes()
    }
}

impl LineEnding {
    /// Every line ending, in the order a user is offered them.
    pub const ALL: [LineEnding; 4] = [
        LineEnding::NoEnding,
        LineEnding::Lf,
        LineEnding::Cr,
        LineEnding::CrLf,
    ];

    /// The label a user sees for this line ending.
    pub open spec fn label(self) -> Seq<char> {
        match self {
            LineEnding::NoEnding => seq!['N', 'o', 'n', 'e'],
            LineEnding::Lf => seq!['\\', 'n'],
            LineEnding::Cr => seq!['\\', 'r'],
            LineEnding::CrLf => seq!['\\', 'r', '\\', 'n'],
        }
    }

    /// The label a user sees for this line ending: `None`, `\n`, `\r` or `\r\n`,
    /// written with a backslash.
    pub fn to_string(&self) -> (text: String)
        ensures
            text@ == self.label(),
    {
        let mut text = String::new();
        match self {
            LineEnding::NoEnding => {
                push_char(&mut text, 'N');
                push_char(&mut text, 'o');
                push_char(&mut text, 'n');
                push_char(&mut text, 'e');
            },
            LineEnding::Lf => {
                push_char(&mut text, '\\');
                push_char(&mut text, 'n');
            },
            LineEnding::Cr => {
                push_char(&mut text, '\\');
                push_char(&mut text, 'r');
            },
            LineEnding::CrLf => {
                push_char(&mut text, '\\');
                push_char(&mut text, 'r');
                push_char(&mut text, '\\');
                push_char(&mut text, 'n');
            },
        }
        assert(text@ =~= self.label());
        text
    }
}

/// The character of a decimal digit.
pub open spec fn digit_char(d: int) -> char {
    ((48 + d) as u32) as char
}

/// `value` in decimal with at least `width` digits, zeros in front.
pub open spec fn padded_decimal(value: nat, width: nat) -> Seq<char>
    decreases value, width,
{
    if width <= 1 && value < 10 {
        seq![digit_char(value as int)]
    } else if width == 0 {
        padded_decimal(value / 10, 0).push(digit_char((value % 10) as int))
    } else {
        padded_decimal(value / 10, (width - 1) as nat).push(digit_char((value % 10) as int))
    }
}

/// A time of day as a clock reads it, with the ranges that chrono's `NaiveTime`
/// accepts: `nanosecond` reaches past a second only in a leap second, at `:59`.
#[derive(Clone, Copy)]
pub struct ClockTime {
    hour: u32,
    minute: u32,
    second: u32,
    nanosecond: u32,
}

/// True when the four numbers name a time of day.
pub open spec fn is_time_of_day(hour: u32, minute: u32, second: u32, nanosecond: u32) -> bool {
    &&& hour < 24
    &&& minute < 60
    &&& second < 60
    &&& nanosecond < 2_000_000_000
    &&& (nanosecond >= 1_000_000_000 ==> second == 59)
}

/// `HH:MM:SS.mmm` for a time of day; a leap second reads as second 60.
pub open spec fn timestamp_text(hour: nat, minute: nat, second: nat, nanosecond: nat) -> Seq<char> {
    padded_decimal(hour, 2) + seq![':'] + padded_decimal(minute, 2) + seq![':']
        + padded_decimal(second + nanosecond / 1_000_000_000, 2) + seq!['.']
        + padded_decimal((nanosecond / 1_000_000) % 1000, 3)
}

impl ClockTime {
    #[verifier::type_invariant]
    spec fn in_range(self) -> bool {
        is_time_of_day(self.hour, self.minute, self.second, self.nanosecond)
    }

    pub closed spec fn hour_of(self) -> u32 {
        self.hour
    }

    pub closed spec fn minute_of(self) -> u32 {
        self.minute
    }

    pub closed spec fn second_of(self) -> u32 {
        self.second
    }

    pub closed spec fn nanosecond_of(self) -> u32 {
        self.nanosecond
    }

    /// Gives the caller's proofs that the fields name a time of day, as they do
    /// in every `ClockTime`; it does nothing at run time.
    pub fn lemma_in_range(&self)
        ensures
            is_time_of_day(self.hour_of(), self.minute_of(), self.second_of(), self.nanosecond_of()),
    {
        proof {
            use_type_invariant(self);
        }
    }

    /// The time of day with these fields, or `None` when they name none.
    pub fn new(hour: u32, minute: u32, second: u32, nanosecond: u32) -> (time: Option<ClockTime>)
        ensures
            time is Some <==> is_time_of_day(hour, minute, second, nanosecond),
            time matches Some(t) ==> t.hour_of() == hour && t.minute_of() == minute
                && t.second_of() == second && t.nanosecond_of() == nanosecond,
    {
        if hour < 24 && minute < 60 && second < 60 && nanosecond < 2_000_000_000 && (
        nanosecond < 1_000_000_000 || second == 59) {
            Some(ClockTime { hour, minute, second, nanosecond })
        } else {
            None
        }
    }
}

/// The decimal digit `d` as a character.
pub(crate) fn digit(d: u32) -> (c: char)
    requires
        d < 10,
    ensures
        c == digit_char(d as int),
{
    match d {
        0 => '0',
        1 => '1',
        2 => '2',
        3 => '3',
        4 => '4',
        5 => '5',
        6 => '6',
        7 => '7',
        8 => '8',
        _ => '9',
    }
}

/// Appends `value` as two decimal digits.
fn push_two_digits(text: &mut String, value: u32)
    requires
        value < 100,
    ensures
        final(text)@ == old(text)@ + padded_decimal(value as nat, 2),
        padded_decimal(value as nat, 2).len() == 2,
{
    assert(padded_decimal(value as nat, 2) == padded_decimal(value as nat / 10, 1).push(
        digit_char((value % 10) as int),
    ));
    assert(padded_decimal(value as nat / 10, 1) == seq![digit_char((value / 10) as int)]);
    push_char(text, digit(value / 10));
    push_char(text, digit(value % 10));
    assert(final(text)@ =~= old(text)@ + padded_decimal(value as nat, 2));
}

/// Appends `value` as three decimal digits.
fn push_three_digits(text: &mut String, value: u32)
    requires
        value < 1000,
    ensures
        final(text)@ == old(text)@ + padded_decimal(value as nat, 3),
        padded_decimal(value as nat, 3).len() == 3,
{
    let hundreds = value / 100;
    let rest = value % 100;
    assert(padded_decimal(value as nat, 3) == padded_decimal(value as nat / 10, 2).push(
        digit_char((value % 10) as int),
    ));
    assert(padded_decimal(value as nat / 10, 2) == padded_decimal(value as nat / 100, 1).push(
        digit_char(((value / 10) % 10) as int),
    ));
    assert(padded_decimal(value as nat / 100, 1) == seq![digit_char(hundreds as int)]);
    push_char(text, digit(hundreds));
    push_char(text, digit(rest / 10));
    push_char(text, digit(rest % 10));
    assert((value / 10) % 10 == rest / 10);
    assert(value % 10 == rest % 10);
    assert(final(text)@ =~= old(text)@ + padded_decimal(value as nat, 3));
}

/// The time of day as `HH:MM:SS.mmm`, hours on a 24-hour clock, with the
/// milliseconds cut (not rounded) from the nanoseconds.
pub fn format_timestamp(now: ClockTime) -> (text: String)
    ensures
        text@ == timestamp_text(
            now.hour_of() as nat,
            now.minute_of() as nat,
            now.second_of() as nat,
            now.nanosecond_of() as nat,
        ),
        text@.len() == 12,
{
    proof {
        use_type_invariant(&now);
    }
    let mut text = String::new();
    push_two_digits(&mut text, now.hour);
    push_char(&mut text, ':');
    push_two_digits(&mut text, now.minute);
    push_char(&mut text, ':');
    push_two_digits(&mut text, now.second + now.nanosecond / 1_000_000_000);
    push_char(&mut text, '.');
    push_three_digits(&mut text, (now.nanosecond / 1_000_000) % 1000);
    assert(text@ =~= timestamp_text(
        now.hour as nat,
        now.minute as nat,
        now.second as nat,
        now.nanosecond as nat,
    ));
    text
}

/// The number a decimal digit character stands for.
pub open spec fn digit_value(c: char) -> int {
    (c as u32) - 48
}

/// A value below 100 in two places: its tens, then its ones.
proof fn lemma_two_places(v: nat)
    requires
        v < 100,
    ensures
        padded_decimal(v, 2).len() == 2,
        digit_value(padded_decimal(v, 2)[0]) == v / 10,
        digit_value(padded_decimal(v, 2)[1]) == v % 10,
{
    assert(padded_decimal(v, 2) == padded_decimal(v / 10, 1).push(digit_char((v % 10) as int)));
    assert(padded_decimal(v / 10, 1) == seq![digit_char((v / 10) as int)]);
    let a = (48 + v / 10) as u32;
    let b = (48 + v % 10) as u32;
    assert((a as char) as u32 == a);
    assert((b as char) as u32 == b);
}

/// A value below 1000 in three places.
proof fn lemma_three_places(v: nat)
    requires
        v < 1000,
    ensures
        padded_decimal(v, 3).len() == 3,
        digit_value(padded_decimal(v, 3)[0]) == v / 100,
        digit_value(padded_decimal(v, 3)[1]) == (v / 10) % 10,
        digit_value(padded_decimal(v, 3)[2]) == v % 10,
{
    assert(padded_decimal(v, 3) == padded_decimal(v / 10, 2).push(digit_char((v % 10) as int)));
    lemma_two_places(v / 10);
    assert((v / 10) / 10 == v / 100);
    let b = (48 + v % 10) as u32;
    assert((b as char) as u32 == b);
}

/// A timestamp reads back as the time it was made from: twelve characters,
/// `:` after the hour and the minute, `.` after the second, and the digits
/// give the hour, minute, second (60 in a leap second) and the milliseconds,
/// cut from the nanoseconds.
pub proof fn law_timestamp_reads_back(hour: u32, minute: u32, second: u32, nanosecond: u32)
    requires
        is_time_of_day(hour, minute, second, nanosecond),
    ensures
        ({
            let t = timestamp_text(hour as nat, minute as nat, second as nat, nanosecond as nat);
            &&& t.len() == 12
            &&& t[2] == ':' && t[5] == ':' && t[8] == '.'
            &&& digit_value(t[0]) * 10 + digit_value(t[1]) == hour
            &&& digit_value(t[3]) * 10 + digit_value(t[4]) == minute
            &&& digit_value(t[6]) * 10 + digit_value(t[7]) == second + nanosecond / 1_000_000_000
            &&& digit_value(t[9]) * 100 + digit_value(t[10]) * 10 + digit_value(t[11]) == (
            nanosecond / 1_000_000) % 1000
        }),
{
    let s60 = (second + nanosecond / 1_000_000_000) as nat;
    let ms = ((nanosecond / 1_000_000) % 1000) as nat;
    lemma_two_places(hour as nat);
    lemma_two_places(minute as nat);
    lemma_two_places(s60);
    lemma_three_places(ms);
    let t = timestamp_text(hour as nat, minute as nat, second as nat, nanosecond as nat);
    let h = padded_decimal(hour as nat, 2);
    let m = padded_decimal(minute as nat, 2);
    let sc = padded_decimal(s60, 2);
    let f = padded_decimal(ms, 3);
    assert(t =~= h + seq![':'] + m + seq![':'] + sc + seq!['.'] + f);
    assert(t[0] == h[0] && t[1] == h[1] && t[3] == m[0] && t[4] == m[1]);
    assert(t[6] == sc[0] && t[7] == sc[1] && t[9] == f[0] && t[10] == f[1] && t[11] == f[2]);
    assert(ms / 100 * 100 + (ms / 10) % 10 * 10 + ms % 10 == ms);
}

} // verus!
