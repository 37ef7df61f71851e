//! Decimal numbers, white space and padding in text.
#[allow(unused_imports)]
use vstd::arithmetic::div_mod::lemma_div_denominator;
#[allow(unused_imports)]
use vstd::arithmetic::power::{lemma_pow0, lemma_pow1, lemma_pow_positive, pow};
use vstd::prelude::*;

verus! {

/// The decimal digit of value `d`, for `d` below ten.
pub open spec fn digit(d: nat) -> char {
    (48 + d) as char
}

/// `n` in decimal, without a sign and without leading zeros.
pub open spec fn decimal(n: nat) -> Seq<char>
    decreases n,
{
    if n < 10 {
        seq![digit(n)]
    } else {
        decimal(n / 10).push(digit(n % 10))
    }
}

/// The characters of `s` as single bytes, for `s` in ASCII.
pub open spec fn ascii(s: Seq<char>) -> Seq<u8> {
    Seq::new(s.len(), |i: int| s[i] as u8)
}

/// Whether `b` is an ASCII decimal digit.
pub open spec fn is_digit_byte(b: u8) -> bool {
    48 <= b <= 57
}

/// The number that the ASCII digits `s` write in decimal, leading zeros allowed.
pub open spec fn digits_value(s: Seq<u8>) -> nat
    decreases s.len(),
{
    if s.len() == 0 {
        0
    } else {
        (digits_value(s.drop_last()) * 10 + (s.last() - 48)) as nat
    }
}

/// `s` without one leading plus sign.
pub open spec fn unsigned_part(s: Seq<u8>) -> Seq<u8> {
    if s.len() > 0 && s[0] == 43 {
        s.skip(1)
    } else {
        s
    }
}

/// The number written in `s`: an optional plus sign, then one or more decimal digits and
/// nothing else. Of any other text there is none.
pub open spec fn written_number(s: Seq<u8>) -> Option<nat> {
    let body = unsigned_part(s);
    if body.len() > 0 && (forall|i: int| 0 <= i < body.len() ==> is_digit_byte(#[trigger] body[i])) {
        Some(digits_value(body))
    } else {
        None
    }
}

/// Whether `c` has the Unicode property `White_Space`.
pub open spec fn is_white_space(c: char) -> bool {
    ||| '\u{9}' <= c <= '\u{d}'
    ||| c == '\u{20}'
    ||| c == '\u{85}'
    ||| c == '\u{a0}'
    ||| c == '\u{1680}'
    ||| '\u{2000}' <= c <= '\u{200a}'
    ||| c == '\u{2028}'
    ||| c == '\u{2029}'
    ||| c == '\u{202f}'
    ||| c == '\u{205f}'
    ||| c == '\u{3000}'
}

/// Whether `s` holds nothing but white space.
pub open spec fn blank(s: Seq<char>) -> bool {
    forall|i: int| 0 <= i < s.len() ==> is_white_space(#[trigger] s[i])
}

/// `s` without its leading white space.
pub open spec fn trimmed_start(s: Seq<char>) -> Seq<char>
    decreases s.len(),
{
    if s.len() > 0 && is_white_space(s[0]) {
        trimmed_start(s.skip(1))
    } else {
        s
    }
}

/// `s` without its trailing white space.
pub open spec fn trimmed_end(s: Seq<char>) -> Seq<char>
    decreases s.len(),
{
    if s.len() > 0 && is_white_space(s.last()) {
        trimmed_end(s.drop_last())
    } else {
        s
    }
}

/// `s` without the white space around it.
pub open spec fn trimmed(s: Seq<char>) -> Seq<char> {
    trimmed_end(trimmed_start(s))
}

/// `s` moved to the right edge of a column of `width` characters. Text that is wider than
/// the column is left as it is.
pub open spec fn right_aligned(s: Seq<char>, width: nat) -> Seq<char> {
    if s.len() >= width {
        s
    } else {
        Seq::new((width - s.len()) as nat, |i: int| ' ') + s
    }
}

/// The digit of value `d` as text.
fn digit_text(d: u64) -> (text: &'static str)
    requires
        d < 10,
    ensures
        text@ == seq![digit(d as nat)],
{
    proof {
        reveal_strlit("0");
        reveal_strlit("1");
        reveal_strlit("2");
        reveal_strlit("3");
        reveal_strlit("4");
        reveal_strlit("5");
        reveal_strlit("6");
        reveal_strlit("7");
        reveal_strlit("8");
        reveal_strlit("9");
    }
    let text = match d {
        0 => "0",
        1 => "1",
        2 => "2",
        3 => "3",
        4 => "4",
        5 => "5",
        6 => "6",
        7 => "7",
        8 => "8",
        _ => "9",
    };
    assert(text@ =~= seq![digit(d as nat)]);
    text
}

/// Appends `n` in decimal to `out`.
pub fn push_decimal(out: &mut String, n: u64)
    ensures
        final(out)@ == old(out)@ + decimal(n as nat),
    decreases n,
{
    if n < 10 {
        out.append(digit_text(n));
    } else {
        push_decimal(out, n / 10);
        out.append(digit_text(n % 10));
        assert(out@ =~= old(out)@ + decimal(n as nat));
    }
}

/// Whether two texts are the same.
pub fn same_text(a: &str, b: &str) -> (yes: bool)
    ensures
        yes == (a@ == b@),
{
    a.to_owned() == b.to_owned()
}

/// Reads a `usize` from text as `str::parse` does: an optional plus sign and decimal digits.
pub fn parse_usize(text: &[u8]) -> (number: Option<usize>)
    ensures
        number == match written_number(text@) {
            Some(n) => if n <= usize::MAX {
                Some(n as usize)
            } else {
                None
            },
            None => None,
        },
{
    let start: usize = if text.len() > 0 && text[0] == 43 {
        1
    } else {
        0
    };
    let ghost body = unsigned_part(text@);
    assert(body =~= text@.skip(start as int));
    if text.len() == start {
        return None;
    }
    let mut value: usize = 0;
    let mut fits: bool = true;
    let mut i: usize = start;
    while i < text.len()
        invariant
            start <= i <= text.len(),
            start <= 1,
            body == text@.skip(start as int),
            body == unsigned_part(text@),
            forall|j: int| 0 <= j < i - start ==> is_digit_byte(#[trigger] body[j]),
            fits ==> value == digits_value(body.take(i - start)),
            !fits ==> digits_value(body.take(i - start)) > usize::MAX,
        decreases text.len() - i,
    {
        let b = text[i];
        assert(b == body[i - start]);
        if b < 48 || b > 57 {
            return None;
        }
        let d: usize = (b - 48) as usize;
        assert(body.take(i + 1 - start).drop_last() =~= body.take(i - start));
        assert(body.take(i + 1 - start).last() == b);
        match value.checked_mul(10) {
            Some(tens) => match tens.checked_add(d) {
                Some(sum) => {
                    value = sum;
                },
                None => {
                    fits = false;
                },
            },
            None => {
                fits = false;
            },
        }
        i = i + 1;
    }
    assert(body.take(i - start) =~= body);
    if fits {
        Some(value)
    } else {
        None
    }
}

/// Whether `c` has the Unicode property `White_Space`.
fn white_space(c: char) -> (yes: bool)
    ensures
        yes == is_white_space(c),
{
    ('\u{9}' <= c && c <= '\u{d}') || c == '\u{20}' || c == '\u{85}' || c == '\u{a0}' || c
        == '\u{1680}' || ('\u{2000}' <= c && c <= '\u{200a}') || c == '\u{2028}' || c == '\u{2029}'
        || c == '\u{202f}' || c == '\u{205f}' || c == '\u{3000}'
}

/// Where the text of `s` starts and ends once the white space around it is left out, counted
/// in characters. Both are 0 where `s` is blank.
fn trimmed_bounds(s: &str) -> (bounds: (usize, usize))
    ensures
        bounds.0 <= bounds.1 <= s@.len(),
        blank(s@.take(bounds.0 as int)),
        blank(s@.skip(bounds.1 as int)),
        bounds.0 < bounds.1 ==> !is_white_space(s@[bounds.0 as int]) && !is_white_space(
            s@[bounds.1 - 1],
        ),
        bounds.0 == bounds.1 ==> blank(s@) && bounds.0 == 0,
{
    let n: usize = s.unicode_len();
    let mut from: usize = 0;
    let mut to: usize = 0;
    let mut i: usize = 0;
    for c in it: s.chars()
        invariant
            n == s@.len(),
            it.seq() == s@,
            i == it.index(),
            from <= to <= i,
            from < to ==> {
                &&& !is_white_space(s@[from as int])
                &&& !is_white_space(s@[to - 1])
                &&& forall|j: int| 0 <= j < from ==> is_white_space(#[trigger] s@[j])
                &&& forall|j: int| to <= j < i ==> is_white_space(#[trigger] s@[j])
            },
            from == to ==> {
                &&& from == 0
                &&& forall|j: int| 0 <= j < i ==> is_white_space(#[trigger] s@[j])
            },
    {
        if !white_space(c) {
            if to == 0 {
                from = i;
            }
            to = i + 1;
        }
        i = i + 1;
    }
    (from, to)
}

proof fn lemma_trimmed_start(s: Seq<char>, from: int)
    requires
        0 <= from <= s.len(),
        forall|j: int| 0 <= j < from ==> is_white_space(#[trigger] s[j]),
        from < s.len() ==> !is_white_space(s[from]),
    ensures
        trimmed_start(s) == s.skip(from),
    decreases from,
{
    if from > 0 {
        assert(is_white_space(s[0]));
        assert forall|j: int| 0 <= j < from - 1 implies is_white_space(
            #[trigger] s.skip(1)[j],
        ) by {
            assert(is_white_space(s[j + 1]));
        }
        lemma_trimmed_start(s.skip(1), from - 1);
        assert(s.skip(1).skip(from - 1) =~= s.skip(from));
    } else {
        assert(s.skip(0) =~= s);
    }
}

proof fn lemma_trimmed_end(s: Seq<char>, to: int)
    requires
        0 <= to <= s.len(),
        forall|j: int| to <= j < s.len() ==> is_white_space(#[trigger] s[j]),
        to > 0 ==> !is_white_space(s[to - 1]),
    ensures
        trimmed_end(s) == s.take(to),
    decreases s.len(),
{
    if to < s.len() {
        assert(is_white_space(s[s.len() - 1]));
        lemma_trimmed_end(s.drop_last(), to);
        assert(s.drop_last().take(to) =~= s.take(to));
    } else {
        assert(s.take(to) =~= s);
    }
}

proof fn lemma_trimmed(s: Seq<char>, from: int, to: int)
    requires
        0 <= from <= to <= s.len(),
        blank(s.take(from)),
        blank(s.skip(to)),
        from < to ==> !is_white_space(s[from]) && !is_white_space(s[to - 1]),
        from == to ==> blank(s),
    ensures
        trimmed(s) == s.subrange(from, to),
{
    if from == to {
        lemma_trimmed_start(s, s.len() as int);
        assert(s.skip(s.len() as int) =~= s.subrange(from, to));
        lemma_trimmed_end(s.skip(s.len() as int), 0);
        assert(s.skip(s.len() as int).take(0) =~= s.subrange(from, to));
    } else {
        assert forall|j: int| 0 <= j < from implies is_white_space(#[trigger] s[j]) by {
            assert(s.take(from)[j] == s[j]);
        }
        lemma_trimmed_start(s, from);
        let rest = s.skip(from);
        assert forall|j: int| to - from <= j < rest.len() implies is_white_space(
            #[trigger] rest[j],
        ) by {
            assert(s.skip(to)[j + from - to] == rest[j]);
        }
        lemma_trimmed_end(rest, to - from);
        assert(rest.take(to - from) =~= s.subrange(from, to));
    }
}

/// Whether `s` holds nothing but white space.
pub fn is_blank(s: &str) -> (yes: bool)
    ensures
        yes == blank(s@),
{
    let (from, to) = trimmed_bounds(s);
    from == to
}

/// `s` without the white space around it.
pub fn trim(s: &str) -> (text: String)
    ensures
        text@ == trimmed(s@),
{
    let (from, to) = trimmed_bounds(s);
    proof {
        lemma_trimmed(s@, from as int, to as int);
    }
    s.substring_char(from, to).to_owned()
}

/// `n` in decimal, at the right edge of a column of `width` characters.
pub fn right_aligned_decimal(n: u64, width: usize) -> (text: String)
    ensures
        text@ == right_aligned(decimal(n as nat), width as nat),
{
    let mut number = String::new();
    push_decimal(&mut number, n);
    let digits: usize = number.as_str().unicode_len();
    if digits >= width {
        return number;
    }
    let mut text = String::new();
    let mut i: usize = 0;
    while i < width - digits
        invariant
            i <= width - digits,
            digits < width,
            text@ == Seq::new(i as nat, |j: int| ' '),
        decreases width - digits - i,
    {
        proof {
            reveal_strlit(" ");
        }
        text.append(" ");
        i = i + 1;
        assert(text@ =~= Seq::new(i as nat, |j: int| ' '));
    }
    text.append(number.as_str());
    text
}

/// A number in decimal is one or more ASCII digits.
pub proof fn decimal_is_digits(n: nat)
    ensures
        decimal(n).len() > 0,
        forall|i: int|
            0 <= i < decimal(n).len() ==> '0' <= #[trigger] decimal(n)[i] <= '9',
    decreases n,
{
    if n >= 10 {
        decimal_is_digits(n / 10);
    }
}

/// Reading back a number that was written in decimal gives that number.
pub proof fn decimal_reads_back(n: nat)
    ensures
        written_number(ascii(decimal(n))) == Some(n),
    decreases n,
{
    decimal_is_digits(n);
    let s = ascii(decimal(n));
    assert(forall|i: int| 0 <= i < s.len() ==> is_digit_byte(#[trigger] s[i]));
    assert(unsigned_part(s) == s);
    if n >= 10 {
        decimal_reads_back(n / 10);
        decimal_is_digits(n / 10);
        let front = ascii(decimal(n / 10));
        assert(unsigned_part(front) == front);
        assert(s.drop_last() =~= front);
        assert(s.last() == 48 + n % 10);
    } else {
        assert(s.drop_last() =~= Seq::<u8>::empty());
        assert(digits_value(s.drop_last()) == 0);
    }
}

/// Different numbers are written differently.
pub proof fn decimal_is_injective(m: nat, n: nat)
    requires
        decimal(m) == decimal(n),
    ensures
        m == n,
{
    decimal_reads_back(m);
    decimal_reads_back(n);
}

/// What is left after trimming neither starts nor ends with white space.
pub proof fn trimmed_has_no_space_around(s: Seq<char>)
    ensures
        trimmed(s).len() > 0 ==> !is_white_space(trimmed(s)[0]) && !is_white_space(
            trimmed(s).last(),
        ),
        trimmed(s).len() == 0 <==> blank(s),
    decreases s.len(),
{
    if s.len() > 0 && is_white_space(s[0]) {
        trimmed_has_no_space_around(s.skip(1));
        if blank(s.skip(1)) {
            assert forall|i: int| 0 <= i < s.len() implies is_white_space(#[trigger] s[i]) by {
                if i > 0 {
                    assert(s.skip(1)[i - 1] == s[i]);
                }
            }
        }
        if blank(s) {
            assert forall|i: int| 0 <= i < s.skip(1).len() implies is_white_space(
                #[trigger] s.skip(1)[i],
            ) by {
                assert(is_white_space(s[i + 1]));
            }
        }
    } else if s.len() > 0 {
        lemma_trimmed_end_keeps_start(s);
    }
}

proof fn lemma_trimmed_end_keeps_start(s: Seq<char>)
    requires
        s.len() > 0,
        !is_white_space(s[0]),
    ensures
        trimmed_end(s).len() > 0,
        trimmed_end(s)[0] == s[0],
        !is_white_space(trimmed_end(s).last()),
    decreases s.len(),
{
    if is_white_space(s.last()) {
        lemma_trimmed_end_keeps_start(s.drop_last());
    }
}

/// A number in decimal has the digits of that number, from the highest power of ten down, and does
/// not start with a zero unless it is one.
pub proof fn decimal_has_the_digits(n: nat)
    ensures
        decimal(n).len() > 0,
        n < pow(10, decimal(n).len()),
        n > 0 ==> decimal(n)[0] != '0',
        n == 0 ==> decimal(n).len() == 1,
        forall|i: int|
            0 <= i < decimal(n).len() ==> (#[trigger] decimal(n)[i]) as int == 48 + (n as int / pow(
                10,
                (decimal(n).len() - 1 - i) as nat,
            )) % 10,
    decreases n,
{
    let s = decimal(n);
    let last = s.len() - 1;
    lemma_pow0(10);
    if n < 10 {
        lemma_pow1(10);
        assert(s =~= seq![digit(n)]);
    } else {
        let front = decimal(n / 10);
        decimal_has_the_digits(n / 10);
        assert(pow(10, s.len()) == 10 * pow(10, front.len())) by {
            reveal(pow);
        }
        assert forall|i: int| 0 <= i < s.len() implies (#[trigger] s[i]) as int == 48 + (n as int
            / pow(10, (last - i) as nat)) % 10 by {
            if i < last {
                let e = (last - 1 - i) as nat;
                assert(s[i] == front[i]);
                lemma_pow_positive(10, e);
                assert(pow(10, (last - i) as nat) == 10 * pow(10, e)) by {
                    reveal(pow);
                }
                lemma_div_denominator(n as int, 10, pow(10, e));
            } else {
                assert(s[i] == digit(n % 10));
                assert(n as int / 1 == n);
            }
        }
        assert(s[0] == front[0]);
    }
}

/// The number that digits write grows tenfold, by the value of the digit, with each digit that is
/// put behind them.
pub proof fn digits_count_by_position(s: Seq<u8>, b: u8)
    requires
        48 <= b <= 57,
    ensures
        digits_value(Seq::empty()) == 0,
        digits_value(s.push(b)) == 10 * digits_value(s) + (b - 48),
{
    assert(s.push(b).drop_last() =~= s);
}

/// Text writes a number if and only if it is one or more decimal digits, with or without a plus
/// sign before them, and the number is that of the digits.
pub proof fn number_is_digits_with_optional_plus(s: Seq<u8>, digits: Seq<u8>)
    requires
        digits.len() > 0,
        s == digits && s[0] != 43 || s == seq![43u8] + digits,
    ensures
        (forall|i: int| 0 <= i < digits.len() ==> 48 <= #[trigger] digits[i] <= 57)
            ==> written_number(s) == Some(digits_value(digits)),
        (exists|i: int| 0 <= i < digits.len() && !(48 <= #[trigger] digits[i] <= 57))
            ==> written_number(s) is None,
        written_number(Seq::empty()) is None,
        written_number(seq![43u8]) is None,
{
    assert(unsigned_part(s) =~= digits);
    assert(seq![43u8].skip(1) =~= Seq::<u8>::empty());
    if exists|i: int| 0 <= i < digits.len() && !(48 <= #[trigger] digits[i] <= 57) {
        let i = choose|i: int| 0 <= i < digits.len() && !(48 <= #[trigger] digits[i] <= 57);
        assert(!is_digit_byte(digits[i]));
    }
}

/// Text is blank if and only if no character of it is anything but white space.
pub proof fn blank_text_is_white_space(s: Seq<char>)
    ensures
        blank(s) <==> !(exists|i: int| 0 <= i < s.len() && !is_white_space(#[trigger] s[i])),
{
}

/// Trimming cuts white space off both ends and leaves what stands between as it is.
pub proof fn trimming_cuts_off_the_ends(s: Seq<char>)
    ensures
        exists|from: int, to: int|
            {
                &&& 0 <= from <= to <= s.len()
                &&& trimmed(s) == #[trigger] s.subrange(from, to)
                &&& forall|j: int| 0 <= j < from ==> is_white_space(#[trigger] s[j])
                &&& forall|j: int| to <= j < s.len() ==> is_white_space(#[trigger] s[j])
            },
{
    let from = lemma_leading_space(s);
    let rest = s.skip(from);
    let kept = lemma_trailing_space(rest);
    let to = from + kept;
    assert forall|j: int| to <= j < s.len() implies is_white_space(#[trigger] s[j]) by {
        assert(rest[j - from] == s[j]);
    }
    assert(rest.take(kept) =~= s.subrange(from, to));
}

proof fn lemma_leading_space(s: Seq<char>) -> (from: int)
    ensures
        0 <= from <= s.len(),
        trimmed_start(s) == s.skip(from),
        forall|j: int| 0 <= j < from ==> is_white_space(#[trigger] s[j]),
    decreases s.len(),
{
    if s.len() > 0 && is_white_space(s[0]) {
        let rest = s.skip(1);
        let from = lemma_leading_space(rest);
        assert(rest.skip(from) =~= s.skip(from + 1));
        assert forall|j: int| 0 <= j < from + 1 implies is_white_space(#[trigger] s[j]) by {
            if j > 0 {
                assert(rest[j - 1] == s[j]);
            }
        }
        from + 1
    } else {
        assert(s.skip(0) =~= s);
        0
    }
}

proof fn lemma_trailing_space(s: Seq<char>) -> (to: int)
    ensures
        0 <= to <= s.len(),
        trimmed_end(s) == s.take(to),
        forall|j: int| to <= j < s.len() ==> is_white_space(#[trigger] s[j]),
    decreases s.len(),
{
    if s.len() > 0 && is_white_space(s.last()) {
        let front = s.drop_last();
        let to = lemma_trailing_space(front);
        assert(front.take(to) =~= s.take(to));
        assert forall|j: int| to <= j < s.len() implies is_white_space(#[trigger] s[j]) by {
            if j < front.len() {
                assert(front[j] == s[j]);
            }
        }
        to
    } else {
        assert(s.take(s.len() as int) =~= s);
        s.len() as int
    }
}

/// Text in a column ends with the column and has nothing but spaces before it. It fills the column
/// exactly, unless it is wider.
pub proof fn column_ends_with_its_text(s: Seq<char>, width: nat)
    ensures
        right_aligned(s, width).len() == if s.len() < width {
            width
        } else {
            s.len()
        },
        right_aligned(s, width).skip(right_aligned(s, width).len() - s.len()) == s,
        forall|i: int|
            0 <= i < right_aligned(s, width).len() - s.len() ==> #[trigger] right_aligned(
                s,
                width,
            )[i] == ' ',
{
    assert(right_aligned(s, width).skip(right_aligned(s, width).len() - s.len()) =~= s);
}

/// ASCII text has one byte for each character, with the number of that character.
pub proof fn ascii_has_a_byte_for_each_character(s: Seq<char>, i: int)
    requires
        0 <= i < s.len(),
    ensures
        ascii(s).len() == s.len(),
        ascii(s)[i] == s[i] as u8,
{
}

} // verus!
