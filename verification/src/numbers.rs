use vstd::prelude::*;
use crate::format::{digit, digit_char, padded_decimal};
use crate::text::push_char;

verus! {

/// Unicode white space, the characters that `str::trim` removes.
pub open spec fn is_white_space(c: char) -> bool {
    let u = c as u32;
    ||| u == 0x20
    ||| 0x09 <= u <= 0x0d
    ||| u == 0x85
    ||| u == 0xa0
    ||| u == 0x1680
    ||| 0x2000 <= u <= 0x200a
    ||| u == 0x2028
    ||| u == 0x2029
    ||| u == 0x202f
    ||| u == 0x205f
    ||| u == 0x3000
}

/// `s` without white space at its start.
pub open spec fn trim_start(s: Seq<char>) -> Seq<char>
    decreases s.len(),
{
    if s.len() > 0 && is_white_space(s[0]) {
        trim_start(s.drop_first())
    } else {
        s
    }
}

/// `s` without white space at its end.
pub open spec fn trim_end(s: Seq<char>) -> Seq<char>
    decreases s.len(),
{
    if s.len() > 0 && is_white_space(s.last()) {
        trim_end(s.drop_last())
    } else {
        s
    }
}

/// `s` without white space at either end.
pub open spec fn trimmed(s: Seq<char>) -> Seq<char> {
    trim_end(trim_start(s))
}

/// True when every character of `s` is white space.
pub open spec fn all_white_space(s: Seq<char>) -> bool {
    forall|i: int| 0 <= i < s.len() ==> is_white_space(#[trigger] s[i])
}

/// White space in front of a text is all removed from its start.
proof fn lemma_trim_start_skips_white_space(w: Seq<char>, x: Seq<char>)
    requires
        all_white_space(w),
    ensures
        trim_start(w + x) == trim_start(x),
    decreases w.len(),
{
    if w.len() == 0 {
        assert(w + x =~= x);
    } else {
        assert((w + x)[0] == w[0]);
        assert((w + x).drop_first() =~= w.drop_first() + x);
        lemma_trim_start_skips_white_space(w.drop_first(), x);
    }
}

/// White space behind a text is all removed from its end.
proof fn lemma_trim_end_skips_white_space(x: Seq<char>, w: Seq<char>)
    requires
        all_white_space(w),
    ensures
        trim_end(x + w) == trim_end(x),
    decreases w.len(),
{
    if w.len() == 0 {
        assert(x + w =~= x);
    } else {
        assert((x + w).last() == w.last());
        assert((x + w).drop_last() =~= x + w.drop_last());
        lemma_trim_end_skips_white_space(x, w.drop_last());
    }
}

/// Trimming the start keeps what follows the first character that is not
/// white space.
proof fn lemma_trim_start_then_append(x: Seq<char>, w: Seq<char>)
    ensures
        trim_start(x + w) == if trim_start(x).len() > 0 {
            trim_start(x) + w
        } else {
            trim_start(w)
        },
    decreases x.len(),
{
    if x.len() == 0 {
        assert(x + w =~= w);
    } else {
        assert((x + w)[0] == x[0]);
        assert((x + w).drop_first() =~= x.drop_first() + w);
        lemma_trim_start_then_append(x.drop_first(), w);
    }
}

/// What trimming leaves starts and ends with a character that is not white
/// space, and it is all of `s` but white space at either end.
proof fn lemma_trim_ends(s: Seq<char>)
    ensures
        trim_start(s).len() > 0 ==> !is_white_space(trim_start(s)[0]),
        trim_end(s).len() > 0 ==> !is_white_space(trim_end(s).last()),
        s.len() > 0 && trim_start(s).len() == 0 ==> all_white_space(s),
        trim_end(s).len() > 0 && is_white_space(s[0]) ==> trim_end(s).len() > 0 && trim_end(
            s,
        )[0] == s[0],
    decreases s.len(),
{
    if s.len() > 0 {
        lemma_trim_ends(s.drop_first());
        lemma_trim_ends(s.drop_last());
        if is_white_space(s[0]) && trim_start(s.drop_first()).len() == 0 && s.drop_first().len()
            > 0 {
            assert forall|i: int| 0 <= i < s.len() implies is_white_space(#[trigger] s[i]) by {
                if i > 0 {
                    assert(s[i] == s.drop_first()[i - 1]);
                }
            }
        }
        if trim_end(s).len() > 0 && is_white_space(s[0]) && is_white_space(s.last()) {
            assert(s.drop_last()[0] == s[0]);
        }
    }
}

/// Trimming removes every white-space character at either end of a text and
/// nothing else: the result has no white space at its ends, and white space
/// added around a text does not change what trimming leaves of it.
pub proof fn law_trimmed_strips_all_surrounding_white_space(
    w1: Seq<char>,
    s: Seq<char>,
    w2: Seq<char>,
)
    requires
        all_white_space(w1),
        all_white_space(w2),
    ensures
        trimmed(w1 + s + w2) == trimmed(s),
        trimmed(s).len() > 0 ==> !is_white_space(trimmed(s)[0]) && !is_white_space(
            trimmed(s).last(),
        ),
        parsed_u32(trimmed(w1 + s + w2)) == parsed_u32(trimmed(s)),
{
    assert(w1 + s + w2 =~= w1 + (s + w2));
    lemma_trim_start_skips_white_space(w1, s + w2);
    lemma_trim_start_then_append(s, w2);
    let t = trim_start(s);
    if t.len() > 0 {
        lemma_trim_end_skips_white_space(t, w2);
    } else {
        lemma_trim_ends(w2);
        if w2.len() > 0 {
            assert(is_white_space(w2[0]));
        }
        assert(trim_start(w2).len() == 0 || !is_white_space(trim_start(w2)[0]));
        lemma_trim_start_all_white(w2);
    }
    lemma_trim_ends(s);
    lemma_trim_ends(t);
    if trimmed(s).len() > 0 {
        lemma_trim_end_keeps_front(t);
    }
}

/// A text of white space trims to nothing.
proof fn lemma_trim_start_all_white(w: Seq<char>)
    requires
        all_white_space(w),
    ensures
        trim_start(w).len() == 0,
        trim_end(trim_start(w)) == trim_start(w),
    decreases w.len(),
{
    if w.len() > 0 {
        lemma_trim_start_all_white(w.drop_first());
    }
}

/// Trimming the end of a text that starts with something other than white
/// space keeps that start.
proof fn lemma_trim_end_keeps_front(t: Seq<char>)
    requires
        t.len() > 0 ==> !is_white_space(t[0]),
    ensures
        trim_end(t).len() > 0 ==> trim_end(t)[0] == t[0],
        t.len() > 0 ==> trim_end(t).len() > 0,
    decreases t.len(),
{
    if t.len() > 0 && is_white_space(t.last()) {
        if t.len() > 1 {
            assert(t.drop_last()[0] == t[0]);
        }
        lemma_trim_end_keeps_front(t.drop_last());
    }
}

/// True when every character of `s` is a decimal digit.
pub open spec fn all_digits(s: Seq<char>) -> bool {
    forall|i: int| 0 <= i < s.len() ==> 48 <= (#[trigger] s[i] as u32) <= 57
}

/// The number that the decimal digits `s` write.
pub open spec fn digits_value(s: Seq<char>) -> nat
    decreases s.len(),
{
    if s.len() == 0 {
        0
    } else {
        digits_value(s.drop_last()) * 10 + ((s.last() as u32) - 48) as nat
    }
}

/// What `u32::from_str` accepts: an optional `+`, then one or more decimal
/// digits whose value fits in a `u32`.
pub open spec fn parsed_u32(s: Seq<char>) -> Option<u32> {
    let digits = if s.len() > 0 && s[0] == '+' {
        s.drop_first()
    } else {
        s
    };
    if digits.len() > 0 && all_digits(digits) && digits_value(digits) <= u32::MAX {
        Some(digits_value(digits) as u32)
    } else {
        None
    }
}

/// A longer run of digits writes a number no smaller.
proof fn lemma_digits_value_grows(s: Seq<char>, n: int)
    requires
        0 <= n <= s.len(),
        all_digits(s),
    ensures
        digits_value(s.take(n)) <= digits_value(s),
    decreases s.len(),
{
    if n < s.len() {
        lemma_digits_value_grows(s.drop_last(), n);
        assert(s.drop_last().take(n) =~= s.take(n));
    } else {
        assert(s.take(n) =~= s);
    }
}

/// The number in `text`, read as a baud rate is read: white space around it is
/// ignored, then it must be what `u32::from_str` accepts.
pub fn parse_baud_rate(text: &str) -> (rate: Option<u32>)
    ensures
        rate == parsed_u32(trimmed(text@)),
{
    let n = text.unicode_len();
    let ghost s = text@;
    let mut start: usize = 0;
    assert(s.skip(0) =~= s);
    while start < n && is_space(text.get_char(start))
        invariant
            n == s.len(),
            0 <= start <= n,
            s == text@,
            trim_start(s) == trim_start(s.skip(start as int)),
        decreases n - start,
    {
        assert(s.skip(start as int).drop_first() =~= s.skip(start + 1));
        start = start + 1;
    }
    let ghost front = s.skip(start as int);
    assert(trim_start(s) == front);
    let mut end: usize = n;
    assert(front.take(front.len() as int) =~= front);
    while end > start && is_space(text.get_char(end - 1))
        invariant
            n == s.len(),
            0 <= start <= end <= n,
            s == text@,
            front == s.skip(start as int),
            trim_end(front) == trim_end(front.take(end - start)),
        decreases end,
    {
        assert(front.take(end - start).drop_last() =~= front.take(end - 1 - start));
        end = end - 1;
    }
    let ghost core = front.take(end - start);
    assert(trimmed(s) == core);
    assert forall|k: int| 0 <= k < core.len() implies core[k] == s[start + k] by {}
    let mut pos = start;
    if pos < end && text.get_char(pos) == '+' {
        pos = pos + 1;
    }
    let ghost digits = if core.len() > 0 && core[0] == '+' {
        core.drop_first()
    } else {
        core
    };
    assert(digits =~= s.subrange(pos as int, end as int));
    assert(parsed_u32(trimmed(s)) == (if digits.len() > 0 && all_digits(digits) && digits_value(
        digits,
    ) <= u32::MAX {
        Some(digits_value(digits) as u32)
    } else {
        None
    }));
    if pos == end {
        return None;
    }
    let mut value: u64 = 0;
    let mut i = pos;
    assert(s.subrange(pos as int, i as int) =~= Seq::<char>::empty());
    while i < end
        invariant
            n == s.len(),
            s == text@,
            pos <= i <= end <= n,
            all_digits(s.subrange(pos as int, i as int)),
            value == digits_value(s.subrange(pos as int, i as int)),
            value <= u32::MAX,
            digits == s.subrange(pos as int, end as int),
            parsed_u32(trimmed(s)) == (if digits.len() > 0 && all_digits(digits) && digits_value(
                digits,
            ) <= u32::MAX {
                Some(digits_value(digits) as u32)
            } else {
                None
            }),
        decreases end - i,
    {
        let c = text.get_char(i);
        let code = c as u32;
        if code < 48 || code > 57 {
            assert(!all_digits(digits)) by {
                assert(digits[i - pos] == c);
            }
            return None;
        }
        let ghost before = s.subrange(pos as int, i as int);
        let ghost after = s.subrange(pos as int, i + 1);
        assert(after.drop_last() =~= before);
        assert(after.last() == c);
        value = value * 10 + (code - 48) as u64;
        i = i + 1;
        if value > 0xffff_ffff {
            proof {
                if all_digits(digits) {
                    assert(after =~= digits.take(i - pos));
                    lemma_digits_value_grows(digits, i - pos);
                }
            }
            return None;
        }
    }
    assert(s.subrange(pos as int, i as int) =~= digits);
    Some(value as u32)
}

/// Whether `c` is white space, as `char::is_whitespace` says.
fn is_space(c: char) -> (space: bool)
    ensures
        space == is_white_space(c),
{
    let u = c as u32;
    u == 0x20 || (0x09 <= u && u <= 0x0d) || u == 0x85 || u == 0xa0 || u == 0x1680 || (0x2000 <= u
        && u <= 0x200a) || u == 0x2028 || u == 0x2029 || u == 0x202f || u == 0x205f || u == 0x3000
}

/// `value` in decimal, without leading zeros.
pub open spec fn decimal(value: nat) -> Seq<char> {
    padded_decimal(value, 0)
}

/// Appends `value` in decimal.
pub(crate) fn push_decimal(text: &mut String, value: u32)
    ensures
        final(text)@ == old(text)@ + decimal(value as nat),
    decreases value,
{
    if value >= 10 {
        push_decimal(text, value / 10);
    }
    push_char(text, digit(value % 10));
    assert(final(text)@ =~= old(text)@ + decimal(value as nat));
}

/// `value` written in decimal, as `u32::to_string` writes it.
pub fn decimal_text(value: u32) -> (text: String)
    ensures
        text@ == decimal(value as nat),
{
    let mut text = String::new();
    push_decimal(&mut text, value);
    assert(text@ =~= decimal(value as nat));
    text
}

/// The decimal text of a number holds only digits and reads back as it.
proof fn lemma_decimal_digits(n: nat)
    ensures
        decimal(n).len() > 0,
        all_digits(decimal(n)),
        digits_value(decimal(n)) == n,
    decreases n,
{
    let c = digit_char((n % 10) as int);
    let code = (48 + n % 10) as u32;
    assert((code as char) as u32 == code);
    if n < 10 {
        assert(decimal(n) == seq![c]);
        assert(decimal(n).drop_last() =~= Seq::<char>::empty());
        assert(decimal(n).last() == c);
        assert(digits_value(Seq::<char>::empty()) == 0);
        assert(digits_value(decimal(n)) == digits_value(decimal(n).drop_last()) * 10 + ((c as u32)
            - 48) as nat);
    } else {
        lemma_decimal_digits(n / 10);
        let front = decimal(n / 10);
        assert(decimal(n) == front.push(c));
        assert(decimal(n).drop_last() =~= front);
        assert(decimal(n).last() == c);
        assert((n / 10) * 10 + n % 10 == n);
        assert(digits_value(decimal(n)) == digits_value(front) * 10 + ((c as u32) - 48) as nat);
        assert forall|i: int| 0 <= i < decimal(n).len() implies 48 <= (#[trigger] decimal(n)[i] as u32)
            <= 57 by {
            if i < front.len() {
                assert(decimal(n)[i] == front[i]);
            }
        }
    }
}

/// A text that starts and ends with a digit is left whole by trimming.
proof fn lemma_digits_untrimmed(d: Seq<char>)
    requires
        d.len() > 0,
        all_digits(d),
    ensures
        trimmed(d) == d,
{
    assert(48 <= (d[0] as u32) <= 57);
    assert(48 <= (d.last() as u32) <= 57);
}

/// Reading back a written number gives the number: white space around the
/// decimal text of any `u32`, with or without a `+` in front, reads as it.
pub proof fn law_baud_rate_reads_back(value: u32, w1: Seq<char>, w2: Seq<char>)
    requires
        all_white_space(w1),
        all_white_space(w2),
    ensures
        parsed_u32(trimmed(w1 + decimal(value as nat) + w2)) == Some(value),
        parsed_u32(trimmed(w1 + (seq!['+'] + decimal(value as nat)) + w2)) == Some(value),
{
    let d = decimal(value as nat);
    lemma_decimal_digits(value as nat);
    law_trimmed_strips_all_surrounding_white_space(w1, d, w2);
    lemma_digits_untrimmed(d);
    assert(48 <= (d[0] as u32) <= 57);
    let p = seq!['+'] + d;
    law_trimmed_strips_all_surrounding_white_space(w1, p, w2);
    assert(p.drop_first() =~= d);
    assert(p.last() == d.last());
    assert(48 <= (d.last() as u32) <= 57);
    assert(trim_start(p) == p);
    assert(trim_end(p) == p);
}

/// Only digits, with at most a `+` in front, are read as a number, and a text
/// of digits reads as the same number with zeros in front of it.
pub proof fn law_baud_rate_needs_digits(text: Seq<char>)
    ensures
        parsed_u32(text) is Some ==> text.len() > 0 && forall|i: int|
            0 <= i < text.len() ==> (48 <= (#[trigger] text[i] as u32) <= 57 || (i == 0 && text[i]
                == '+')),
        parsed_u32(text) is Some ==> exists|i: int|
            0 <= i < text.len() && 48 <= (#[trigger] text[i] as u32) <= 57,
        text.len() > 0 && all_digits(text) ==> parsed_u32(seq!['0'] + text) == parsed_u32(text),
{
    if parsed_u32(text) is Some {
        let digits = if text.len() > 0 && text[0] == '+' {
            text.drop_first()
        } else {
            text
        };
        assert forall|i: int| 0 <= i < text.len() implies (48 <= (#[trigger] text[i] as u32) <= 57
            || (i == 0 && text[i] == '+')) by {
            if text[0] == '+' && i > 0 {
                assert(text[i] == digits[i - 1]);
            }
        }
        if text[0] == '+' {
            assert(text[1] == digits[0]);
            assert(48 <= (text[1] as u32) <= 57);
        } else {
            assert(48 <= (text[0] as u32) <= 57);
        }
    }
    if text.len() > 0 && all_digits(text) {
        let z = seq!['0'] + text;
        lemma_leading_zero(text);
        assert(z[0] == '0');
        assert(('0' as u32) == 48);
        assert forall|i: int| 0 <= i < z.len() implies 48 <= (#[trigger] z[i] as u32) <= 57 by {
            if i > 0 {
                assert(z[i] == text[i - 1]);
            }
        }
        assert(text[0] != '+') by {
            assert(48 <= (text[0] as u32) <= 57);
        }
    }
}

/// A zero in front of digits does not change the number they write.
proof fn lemma_leading_zero(text: Seq<char>)
    ensures
        digits_value(seq!['0'] + text) == digits_value(text),
    decreases text.len(),
{
    assert(('0' as u32) == 48);
    if text.len() == 0 {
        let z = seq!['0'];
        assert(z.drop_last() =~= Seq::<char>::empty());
        assert(digits_value(z) == digits_value(z.drop_last()) * 10 + ((z.last() as u32) - 48) as nat);
    } else {
        lemma_leading_zero(text.drop_last());
        assert((seq!['0'] + text).drop_last() =~= seq!['0'] + text.drop_last());
        assert((seq!['0'] + text).last() == text.last());
    }
}

} // verus!
