//! Whole numbers as text.
use vstd::prelude::*;
use vstd::string::StringExecFns;

use crate::text::chars_of;

verus! {

/// Why a text is not a number.
#[derive(Clone, Copy, Debug, PartialEq, Eq, Structural)]
pub enum NumberError {
    /// There is no text.
    Empty,
    /// A character that is not a digit, or a sign with nothing after it.
    InvalidDigit,
    /// The number does not fit.
    TooLarge,
}

impl NumberError {
    /// What is said about the error.
    pub open spec fn message_spec(self) -> Seq<char> {
        match self {
            NumberError::Empty => "cannot parse integer from empty string"@,
            NumberError::InvalidDigit => "invalid digit found in string"@,
            NumberError::TooLarge => "number too large to fit in target type"@,
        }
    }

    /// What is said about the error.
    pub fn message(&self) -> (r: String)
        ensures
            r@ == self.message_spec(),
    {
        match self {
            NumberError::Empty => "cannot parse integer from empty string".to_owned(),
            NumberError::InvalidDigit => "invalid digit found in string".to_owned(),
            NumberError::TooLarge => "number too large to fit in target type".to_owned(),
        }
    }
}

/// Whether a character is one of `0` to `9`.
pub open spec fn is_digit(c: char) -> bool {
    '0' <= c <= '9'
}

/// Whether a character is one of `0` to `9`.
pub fn digit(c: char) -> (r: bool)
    ensures
        r == is_digit(c),
{
    '0' <= c && c <= '9'
}

/// The number that a digit stands for.
pub open spec fn digit_value(c: char) -> nat {
    (c as u32 - '0' as u32) as nat
}

/// The digit that stands for a number below ten.
pub open spec fn digit_char(n: nat) -> char {
    ('0' as u32 + n) as char
}

/// A number written in decimal, without leading zeros.
pub open spec fn decimal(n: nat) -> Seq<char>
    decreases n,
{
    if n < 10 {
        seq![digit_char(n)]
    } else {
        decimal(n / 10).push(digit_char(n % 10))
    }
}

/// The text of one digit.
fn digit_text(n: u64) -> (r: &'static str)
    requires
        n < 10,
    ensures
        r@ == seq![digit_char(n as nat)],
{
    proof {
        reveal_strlit("0");
        reveal_strlit("1");
        reveal_strlit("2");
        reveal_strlit("3");
        reveal_strlit("4");
        reveal_strlit("5");
        reveal_strlit("6");
        reveal_strlit("7");
        reveal_strlit("8");
        reveal_strlit("9");
    }
    let text = match n {
        0 => "0",
        1 => "1",
        2 => "2",
        3 => "3",
        4 => "4",
        5 => "5",
        6 => "6",
        7 => "7",
        8 => "8",
        _ => "9",
    };
    assert(text@ =~= seq![digit_char(n as nat)]);
    text
}

/// Writes a number in decimal.
pub fn write_number(n: u64) -> (r: String)
    ensures
        r@ == decimal(n as nat),
    decreases n,
{
    if n < 10 {
        digit_text(n).to_owned()
    } else {
        let mut out = write_number(n / 10);
        out.append(digit_text(n % 10));
        assert(out@ =~= decimal((n / 10) as nat).push(digit_char((n % 10) as nat)));
        out
    }
}

/// An integer in decimal, a negative one behind a minus sign.
pub open spec fn signed_decimal(n: int) -> Seq<char> {
    if n < 0 {
        seq!['-'] + decimal((-n) as nat)
    } else {
        decimal(n as nat)
    }
}

/// Writes an integer in decimal.
pub fn write_signed(n: i32) -> (r: String)
    ensures
        r@ == signed_decimal(n as int),
{
    let wide: i64 = n as i64;
    if wide < 0 {
        proof {
            reveal_strlit("-");
        }
        let mut out = "-".to_owned();
        out.append(write_number((-wide) as u64).as_str());
        assert(out@ =~= signed_decimal(n as int));
        out
    } else {
        write_number(wide as u64)
    }
}

/// Reads digits behind a number that was read already, up to a greatest number.
/// The first character that cannot be taken decides the error.
pub open spec fn digits_read(s: Seq<char>, so_far: nat, max: nat) -> Result<nat, NumberError>
    decreases s.len(),
{
    if s.len() == 0 {
        Ok(so_far)
    } else if !is_digit(s[0]) {
        Err(NumberError::InvalidDigit)
    } else if so_far * 10 + digit_value(s[0]) > max {
        Err(NumberError::TooLarge)
    } else {
        digits_read(s.skip(1), so_far * 10 + digit_value(s[0]), max)
    }
}

/// Reads a number of at most `max`: digits, with a plus sign allowed in front.
pub open spec fn number_read(s: Seq<char>, max: nat) -> Result<nat, NumberError> {
    if s.len() == 0 {
        Err(NumberError::Empty)
    } else if s[0] == '+' && s.len() == 1 {
        Err(NumberError::InvalidDigit)
    } else if s[0] == '+' {
        digits_read(s.skip(1), 0, max)
    } else {
        digits_read(s, 0, max)
    }
}

/// Reads a number of at most `max`.
pub fn read_number(s: &str, max: u64) -> (r: Result<u64, NumberError>)
    ensures
        number_read(s@, max as nat) == (match r {
            Ok(n) => Ok(n as nat),
            Err(e) => Err(e),
        }),
        r matches Ok(n) ==> n <= max,
{
    let chars = chars_of(s);
    if chars.len() == 0 {
        return Err(NumberError::Empty);
    }
    if chars[0] == '+' && chars.len() == 1 {
        return Err(NumberError::InvalidDigit);
    }
    let mut i: usize = if chars[0] == '+' {
        1
    } else {
        0
    };
    let mut n: u64 = 0;
    assert(s@.skip(0) =~= s@);
    while i < chars.len()
        invariant
            i <= chars.len(),
            chars@ == s@,
            n <= max,
            number_read(s@, max as nat) == digits_read(s@.skip(i as int), n as nat, max as nat),
        decreases chars.len() - i,
    {
        let c: char = chars[i];
        assert(s@.skip(i as int)[0] == c);
        assert(s@.skip(i as int).skip(1) =~= s@.skip(i + 1));
        if !digit(c) {
            return Err(NumberError::InvalidDigit);
        }
        let value: u64 = (c as u32 - '0' as u32) as u64;
        if value > max || n > (max - value) / 10 {
            return Err(NumberError::TooLarge);
        }
        n = n * 10 + value;
        i += 1;
    }
    Ok(n)
}

/// Whether a text is digits and nothing else.
pub open spec fn all_digits(s: Seq<char>) -> bool {
    forall|i: int| 0 <= i < s.len() ==> is_digit(#[trigger] s[i])
}

/// The number that digits stand for behind the number `so_far`.
pub open spec fn value_of(s: Seq<char>, so_far: nat) -> nat
    decreases s.len(),
{
    if s.len() == 0 {
        so_far
    } else {
        value_of(s.skip(1), so_far * 10 + digit_value(s[0]))
    }
}

/// Digits behind a number make it no smaller.
pub proof fn lemma_value_grows(s: Seq<char>, so_far: nat)
    requires
        all_digits(s),
    ensures
        value_of(s, so_far) >= so_far,
    decreases s.len(),
{
    if s.len() > 0 {
        assert(all_digits(s.skip(1))) by {
            assert forall|i: int| 0 <= i < s.skip(1).len() implies is_digit(
                #[trigger] s.skip(1)[i],
            ) by {
                assert(s.skip(1)[i] == s[i + 1]);
            }
        }
        lemma_value_grows(s.skip(1), so_far * 10 + digit_value(s[0]));
    }
}

/// Reading digits succeeds exactly where there are only digits and their number
/// fits, and gives that number.
pub proof fn lemma_digits_read(s: Seq<char>, so_far: nat, max: nat)
    requires
        so_far <= max,
    ensures
        digits_read(s, so_far, max) is Ok <==> all_digits(s) && value_of(s, so_far) <= max,
        digits_read(s, so_far, max) is Ok ==> digits_read(s, so_far, max)->Ok_0 == value_of(
            s,
            so_far,
        ),
    decreases s.len(),
{
    if s.len() > 0 {
        let next = so_far * 10 + digit_value(s[0]);
        if is_digit(s[0]) {
            assert(all_digits(s) <==> all_digits(s.skip(1))) by {
                if all_digits(s.skip(1)) {
                    assert forall|i: int| 0 <= i < s.len() implies is_digit(#[trigger] s[i]) by {
                        if i > 0 {
                            assert(s[i] == s.skip(1)[i - 1]);
                        }
                    }
                }
                if all_digits(s) {
                    assert forall|i: int| 0 <= i < s.skip(1).len() implies is_digit(
                        #[trigger] s.skip(1)[i],
                    ) by {
                        assert(s.skip(1)[i] == s[i + 1]);
                    }
                }
            }
            if next <= max {
                lemma_digits_read(s.skip(1), next, max);
            } else if all_digits(s) {
                lemma_value_grows(s.skip(1), next);
            }
        }
    }
}

/// A digit behind others adds its own worth.
pub proof fn lemma_value_push(s: Seq<char>, so_far: nat, c: char)
    ensures
        value_of(s.push(c), so_far) == value_of(s, so_far) * 10 + digit_value(c),
    decreases s.len(),
{
    if s.len() == 0 {
        assert(s.push(c).skip(1) =~= Seq::<char>::empty());
        assert(value_of(s.push(c).skip(1), so_far * 10 + digit_value(c)) == so_far * 10
            + digit_value(c));
    } else {
        assert(s.push(c).skip(1) =~= s.skip(1).push(c));
        lemma_value_push(s.skip(1), so_far * 10 + digit_value(s[0]), c);
    }
}

/// What is written for a number is digits that are worth it.
pub proof fn lemma_decimal(n: nat)
    ensures
        all_digits(decimal(n)),
        decimal(n).len() > 0,
        value_of(decimal(n), 0) == n,
    decreases n,
{
    if n < 10 {
        let s = decimal(n);
        assert(s.skip(1) =~= Seq::<char>::empty());
        assert(value_of(s.skip(1), digit_value(s[0])) == digit_value(s[0]));
    } else {
        lemma_decimal(n / 10);
        lemma_value_push(decimal(n / 10), 0, digit_char(n % 10));
    }
}

/// A number that fits is read back from what was written.
pub proof fn law_written_number_reads_back(n: nat, max: nat)
    requires
        n <= max,
    ensures
        number_read(decimal(n), max) == Ok::<nat, NumberError>(n),
{
    lemma_decimal(n);
    lemma_digits_read(decimal(n), 0, max);
    assert(is_digit(decimal(n)[0]));
}

/// A text is read as a number exactly where it is digits, behind a plus sign or
/// not, and the number they stand for fits.
pub proof fn law_only_digits_are_a_number(s: Seq<char>, max: nat)
    ensures
        ({
            let digits = if s.len() > 0 && s[0] == '+' {
                s.skip(1)
            } else {
                s
            };
            &&& number_read(s, max) is Ok <==> digits.len() > 0 && all_digits(digits) && value_of(
                digits,
                0,
            ) <= max
            &&& number_read(s, max) is Ok ==> number_read(s, max)->Ok_0 == value_of(digits, 0)
        }),
{
    if s.len() > 0 && s[0] == '+' {
        lemma_digits_read(s.skip(1), 0, max);
    } else {
        lemma_digits_read(s, 0, max);
    }
}

} // verus!
