//! What holds of every text.
use vstd::prelude::*;

use crate::number::{
    all_digits, decimal, digit_value, digits_read, is_digit, lemma_decimal, lemma_value_grows,
    lemma_value_push, number_read, signed_decimal, value_of, NumberError,
};
use crate::order::before;
use crate::text::{
    begins, found, is_blank, is_space, joined, lemma_found, lines_of, occurs, occurs_at, parted,
    squeezed, text_of, texts, trimmed, trimmed_end, trimmed_start, word_of, words,
};

verus! {

// ---------------------------------------------------------------------------
// White space

/// Whether nothing but white space stands at the places from `from` up to `to`.
pub open spec fn white_between(s: Seq<char>, from: int, to: int) -> bool {
    forall|i: int| from <= i < to ==> is_space(#[trigger] s[i])
}

/// Leading white space is what is taken off: the places before the first
/// character that is something else.
pub proof fn law_trimming_the_start(s: Seq<char>) -> (from: int)
    ensures
        0 <= from <= s.len(),
        trimmed_start(s) == s.skip(from),
        white_between(s, 0, from),
        from < s.len() ==> !is_space(s[from]),
    decreases s.len(),
{
    if s.len() > 0 && is_space(s[0]) {
        let rest = s.skip(1);
        let from = law_trimming_the_start(rest);
        assert(rest.skip(from) =~= s.skip(from + 1));
        assert forall|i: int| 0 <= i < from + 1 implies is_space(#[trigger] s[i]) by {
            if i > 0 {
                assert(rest[i - 1] == s[i]);
            }
        }
        if from < rest.len() {
            assert(rest[from] == s[from + 1]);
        }
        from + 1
    } else {
        assert(s.skip(0) =~= s);
        0
    }
}

proof fn lemma_trimming_the_end(s: Seq<char>) -> (to: int)
    ensures
        0 <= to <= s.len(),
        trimmed_end(s) == s.take(to),
        white_between(s, to, s.len() as int),
        to > 0 ==> !is_space(s[to - 1]),
    decreases s.len(),
{
    if s.len() > 0 && is_space(s.last()) {
        let less = s.drop_last();
        let to = lemma_trimming_the_end(less);
        assert(less.take(to) =~= s.take(to));
        assert forall|i: int| to <= i < s.len() implies is_space(#[trigger] s[i]) by {
            if i < less.len() {
                assert(less[i] == s[i]);
            }
        }
        if to > 0 {
            assert(less[to - 1] == s[to - 1]);
        }
        to
    } else {
        assert(s.take(s.len() as int) =~= s);
        s.len() as int
    }
}

/// Trimming takes white space off both ends and nothing else: what is left is
/// one stretch of the text, with white space alone before and behind it, and it
/// neither begins nor ends with any.
pub proof fn law_trimming(s: Seq<char>)
    ensures
        exists|from: int, to: int|
            {
                &&& 0 <= from <= to <= s.len()
                &&& trimmed(s) == #[trigger] s.subrange(from, to)
                &&& white_between(s, 0, from)
                &&& white_between(s, to, s.len() as int)
                &&& from < to ==> !is_space(s[from]) && !is_space(s[to - 1])
            },
{
    let from = law_trimming_the_start(s);
    let rest = s.skip(from);
    let kept = lemma_trimming_the_end(rest);
    let to = from + kept;
    assert(rest.take(kept) =~= s.subrange(from, to));
    assert forall|i: int| to <= i < s.len() implies is_space(#[trigger] s[i]) by {
        assert(rest[i - from] == s[i]);
    }
    if kept > 0 {
        assert(rest[kept - 1] == s[to - 1]);
        if is_space(s[from]) {
            assert(from == s.len());
        }
    }
}

/// A text is blank exactly where all of it is white space.
pub proof fn law_blank_is_all_white(s: Seq<char>)
    ensures
        is_blank(s) <==> white_between(s, 0, s.len() as int),
{
    law_trimming(s);
    let (from, to) = choose|from: int, to: int|
        {
            &&& 0 <= from <= to <= s.len()
            &&& trimmed(s) == #[trigger] s.subrange(from, to)
            &&& white_between(s, 0, from)
            &&& white_between(s, to, s.len() as int)
            &&& from < to ==> !is_space(s[from]) && !is_space(s[to - 1])
        };
    assert(trimmed(s).len() == to - from);
}

/// Squeezing looks at one character at a time, and leaves out the white ones.
pub proof fn law_squeezing(a: Seq<char>, c: char, b: Seq<char>)
    ensures
        squeezed(a + seq![c] + b) == squeezed(a) + (if is_space(c) {
            Seq::empty()
        } else {
            seq![c]
        }) + squeezed(b),
        squeezed(a + b) == squeezed(a) + squeezed(b),
        squeezed(Seq::empty()) == Seq::<char>::empty(),
{
    lemma_squeezed_add(a, b);
    lemma_squeezed_add(a + seq![c], b);
    lemma_squeezed_add(a, seq![c]);
    let one = seq![c];
    assert(one.drop_last() =~= Seq::<char>::empty());
    assert(squeezed(one.drop_last()) =~= Seq::<char>::empty());
    assert(squeezed(one) =~= if is_space(c) {
        Seq::empty()
    } else {
        seq![c]
    });
}

/// Squeezing two texts is squeezing each.
pub proof fn lemma_squeezed_add(a: Seq<char>, b: Seq<char>)
    ensures
        squeezed(a + b) == squeezed(a) + squeezed(b),
    decreases b.len(),
{
    if b.len() == 0 {
        assert(a + b =~= a);
        assert(squeezed(a) + squeezed(b) =~= squeezed(a));
    } else {
        assert((a + b).drop_last() =~= a + b.drop_last());
        assert((a + b).last() == b.last());
        lemma_squeezed_add(a, b.drop_last());
        assert(squeezed(a + b) =~= squeezed(a) + squeezed(b));
    }
}

// ---------------------------------------------------------------------------
// Searching and splitting

/// A text stands in another exactly where it is one of its stretches.
pub proof fn law_standing_in_a_text(hay: Seq<char>, needle: Seq<char>)
    ensures
        occurs(hay, needle) <==> exists|at: int|
            0 <= at && at + needle.len() <= hay.len() && #[trigger] hay.subrange(
                at,
                at + needle.len(),
            ) == needle,
        occurs(hay, needle) <==> exists|front: Seq<char>, back: Seq<char>| hay == #[trigger] (front
            + needle + back),
{
    if occurs(hay, needle) {
        let at = choose|at: int| occurs_at(hay, needle, at);
        assert(hay.subrange(at, at + needle.len()) == needle);
        assert(hay =~= hay.take(at) + needle + hay.skip(at + needle.len()));
    }
    if exists|at: int|
        0 <= at && at + needle.len() <= hay.len() && #[trigger] hay.subrange(at, at + needle.len())
            == needle {
        let at = choose|at: int|
            0 <= at && at + needle.len() <= hay.len() && #[trigger] hay.subrange(
                at,
                at + needle.len(),
            ) == needle;
        assert(occurs_at(hay, needle, at));
    }
    if exists|front: Seq<char>, back: Seq<char>| hay == #[trigger] (front + needle + back) {
        let (front, back) = choose|front: Seq<char>, back: Seq<char>|
            hay == #[trigger] (front + needle + back);
        let at = front.len() as int;
        assert(hay.subrange(at, at + needle.len()) =~= needle);
        assert(occurs_at(hay, needle, at));
    }
}

/// A text begins with another exactly where it is that one and then something.
pub proof fn law_beginning_with(s: Seq<char>, prefix: Seq<char>)
    ensures
        begins(s, prefix) <==> prefix.is_prefix_of(s),
{
}

/// A text is parted at the first place of the mark: the two parts with the mark
/// between them are the whole, and the mark stands nowhere before. It is not
/// parted only where the mark is not there.
pub proof fn law_parting(s: Seq<char>, mark: Seq<char>)
    ensures
        match parted(s, mark) {
            Some((front, back)) => s == front + mark + back && forall|i: int|
                0 <= i < front.len() ==> #[trigger] s.subrange(i, i + mark.len()) != mark,
            None => forall|front: Seq<char>, back: Seq<char>|
                s != #[trigger] (front + mark + back),
        },
{
    lemma_found(s, mark, 0);
    match parted(s, mark) {
        Some((front, back)) => {
            let at = front.len() as int;
            assert(found(s, mark, 0) == Some(at));
            assert(s =~= front + mark + back);
            assert forall|i: int| 0 <= i < front.len() implies #[trigger] s.subrange(
                i,
                i + mark.len(),
            ) != mark by {
                assert(!occurs_at(s, mark, i));
            }
        },
        None => {
            assert forall|front: Seq<char>, back: Seq<char>| s != #[trigger] (front + mark + back) by {
                if s == front + mark + back {
                    let at = front.len() as int;
                    assert(s.subrange(at, at + mark.len()) =~= mark);
                    assert(occurs_at(s, mark, at));
                }
            }
        },
    }
}

/// Where the mark does not stand before its first place, the text is parted
/// there.
pub proof fn law_parted_at(front: Seq<char>, mark: Seq<char>, back: Seq<char>)
    requires
        forall|i: int|
            0 <= i < front.len() ==> #[trigger] (front + mark + back).subrange(i, i + mark.len())
                != mark,
    ensures
        parted(front + mark + back, mark) == Some((front, back)),
{
    let s = front + mark + back;
    let at = front.len() as int;
    lemma_found(s, mark, 0);
    assert(s.subrange(at, at + mark.len()) =~= mark);
    assert(occurs_at(s, mark, at));
    let first = found(s, mark, 0)->0;
    assert(s.subrange(first, first + mark.len()) == mark);
    assert(first == at);
    assert(s.take(at) =~= front);
    assert(s.skip(at + mark.len()) =~= back);
}

/// A line runs up to its line feed, and a carriage return before that is no part
/// of it; what has no line feed is one line as it is, and nothing is no line.
pub proof fn law_lines(line: Seq<char>, rest: Seq<char>)
    requires
        !line.contains('\n'),
    ensures
        lines_of(line + seq!['\n'] + rest) == seq![
            if line.len() > 0 && line.last() == '\r' {
                line.drop_last()
            } else {
                line
            },
        ] + lines_of(rest),
        lines_of(line) == if line.len() == 0 {
            Seq::empty()
        } else {
            seq![line]
        },
{
    let s = line + seq!['\n'] + rest;
    let mark = seq!['\n'];
    assert forall|i: int| 0 <= i < line.len() implies #[trigger] s.subrange(i, i + mark.len())
        != mark by {
        assert(s.subrange(i, i + 1)[0] == line[i]);
        assert(line.contains(line[i]));
    }
    law_parted_at(line, mark, rest);
    lemma_found(s, mark, 0);
    assert(found(s, mark, 0) == Some(line.len() as int)) by {
        let at = found(s, mark, 0)->0;
        assert(s.take(at) == line);
        assert(s.take(at).len() == at);
    }
    assert(s.take(line.len() as int) =~= line);
    assert(s.skip(line.len() as int + 1) =~= rest);
    lemma_found(line, mark, 0);
    if found(line, mark, 0) is Some {
        let at = found(line, mark, 0)->0;
        assert(line.subrange(at, at + 1)[0] == line[at]);
        assert(line.contains(line[at]));
    }
}

/// Texts are joined one after the other with the separator between two.
pub proof fn law_joining(a: Seq<Seq<char>>, b: Seq<Seq<char>>, one: Seq<char>, between: Seq<char>)
    ensures
        joined(Seq::empty(), between) == Seq::<char>::empty(),
        joined(seq![one], between) == one,
        a.len() > 0 && b.len() > 0 ==> joined(a + b, between) == joined(a, between) + between
            + joined(b, between),
    decreases b.len(),
{
    if a.len() > 0 && b.len() > 0 {
        assert((a + b).drop_last() =~= a + b.drop_last());
        assert((a + b).last() == b.last());
        if b.len() == 1 {
            assert(a + b.drop_last() =~= a);
            assert(b[0] == b.last());
        } else {
            law_joining(a, b.drop_last(), one, between);
            assert(joined(a + b, between) =~= joined(a, between) + between + joined(b, between));
        }
    }
}

/// Of two texts one comes before the other where, behind what both begin with,
/// it ends or has the smaller character.
pub proof fn law_order_of_texts(a: Seq<char>, b: Seq<char>)
    ensures
        before(a, b) <==> exists|i: int|
            {
                &&& 0 <= i <= a.len()
                &&& i < b.len()
                &&& #[trigger] a.take(i) == b.take(i)
                &&& i == a.len() || a[i] < b[i]
            },
    decreases b.len(),
{
    if before(a, b) {
        if a.len() == 0 || a[0] != b[0] {
            assert(a.take(0) =~= b.take(0));
        } else {
            let x = a.skip(1);
            let y = b.skip(1);
            law_order_of_texts(x, y);
            let i = choose|i: int|
                {
                    &&& 0 <= i <= x.len()
                    &&& i < y.len()
                    &&& #[trigger] x.take(i) == y.take(i)
                    &&& i == x.len() || x[i] < y[i]
                };
            assert forall|k: int| 0 <= k < i + 1 implies #[trigger] a[k] == b[k] by {
                if k > 0 {
                    assert(x.take(i)[k - 1] == y.take(i)[k - 1]);
                }
            }
            assert(a.take(i + 1) =~= b.take(i + 1));
            if i < x.len() {
                assert(x[i] == a[i + 1] && y[i] == b[i + 1]);
            }
        }
    }
    if exists|i: int|
        {
            &&& 0 <= i <= a.len()
            &&& i < b.len()
            &&& #[trigger] a.take(i) == b.take(i)
            &&& i == a.len() || a[i] < b[i]
        } {
        let i = choose|i: int|
            {
                &&& 0 <= i <= a.len()
                &&& i < b.len()
                &&& #[trigger] a.take(i) == b.take(i)
                &&& i == a.len() || a[i] < b[i]
            };
        if i > 0 {
            assert(a.take(i)[0] == b.take(i)[0]);
            let x = a.skip(1);
            let y = b.skip(1);
            assert(x.take(i - 1) =~= y.take(i - 1)) by {
                assert forall|k: int| 0 <= k < i - 1 implies #[trigger] x[k] == y[k] by {
                    assert(a.take(i)[k + 1] == b.take(i)[k + 1]);
                }
            }
            if i < a.len() {
                assert(x[i - 1] == a[i] && y[i - 1] == b[i]);
            }
            law_order_of_texts(x, y);
        }
    }
}

// ---------------------------------------------------------------------------
// Numbers

/// A number is worth what its digits are worth, each ten times the next.
pub proof fn law_worth_of_digits(digits: Seq<char>, digit: char)
    requires
        '0' <= digit <= '9',
    ensures
        value_of(digits.push(digit), 0) == value_of(digits, 0) * 10 + (digit as int - '0' as int),
        value_of(Seq::empty(), 0) == 0,
{
    lemma_value_push(digits, 0, digit);
}

/// A number is written with digits alone, worth that number, and without a
/// leading zero; a negative one behind a minus sign.
pub proof fn law_writing_a_number(n: nat)
    ensures
        decimal(n).len() > 0,
        forall|i: int| 0 <= i < decimal(n).len() ==> '0' <= #[trigger] decimal(n)[i] <= '9',
        value_of(decimal(n), 0) == n,
        n > 0 ==> decimal(n)[0] != '0',
        signed_decimal(n as int) == decimal(n),
        n > 0 ==> signed_decimal(-(n as int)) == seq!['-'] + decimal(n),
    decreases n,
{
    lemma_decimal(n);
    if n >= 10 {
        law_writing_a_number(n / 10);
        assert(decimal(n)[0] == decimal(n / 10)[0]);
    }
    assert forall|i: int| 0 <= i < decimal(n).len() implies '0' <= #[trigger] decimal(n)[i]
        <= '9' by {
        assert(is_digit(decimal(n)[i]));
    }
}

/// What is not a number is an error that says why: nothing is there, or the
/// first thing that is wrong is a character or the size.
pub proof fn law_why_a_text_is_no_number(good: Seq<char>, c: char, rest: Seq<char>, max: nat)
    requires
        forall|i: int| 0 <= i < good.len() ==> '0' <= #[trigger] good[i] <= '9',
    ensures
        number_read(Seq::empty(), max) == Err::<nat, NumberError>(NumberError::Empty),
        good.len() > 0 && value_of(good, 0) > max ==> number_read(good + rest, max) == Err::<
            nat,
            NumberError,
        >(NumberError::TooLarge),
        good.len() > 0 && value_of(good, 0) <= max && !('0' <= c <= '9') ==> number_read(
            good + seq![c] + rest,
            max,
        ) == Err::<nat, NumberError>(NumberError::InvalidDigit),
        !('0' <= c <= '9') && c != '+' ==> number_read(seq![c] + rest, max) == Err::<
            nat,
            NumberError,
        >(NumberError::InvalidDigit),
        number_read(seq!['+'], max) == Err::<nat, NumberError>(NumberError::InvalidDigit),
        good.len() > 0 ==> number_read(seq!['+'] + good + rest, max) == number_read(
            good + rest,
            max,
        ),
{
    assert(all_digits(good));
    if good.len() > 0 {
        assert(is_digit(good[0]));
        lemma_digits_then(good, rest, 0, max);
        lemma_digits_then(good, seq![c] + rest, 0, max);
        assert(good + seq![c] + rest =~= good + (seq![c] + rest));
        assert((seq![c] + rest)[0] == c);
        assert((seq!['+'] + good + rest).skip(1) =~= good + rest);
    }
    assert((seq![c] + rest)[0] == c);
}

proof fn lemma_digits_then(good: Seq<char>, rest: Seq<char>, so_far: nat, max: nat)
    requires
        all_digits(good),
        so_far <= max,
    ensures
        digits_read(good + rest, so_far, max) == if value_of(good, so_far) > max {
            Err::<nat, NumberError>(NumberError::TooLarge)
        } else {
            digits_read(rest, value_of(good, so_far), max)
        },
    decreases good.len(),
{
    if good.len() == 0 {
        assert(good + rest =~= rest);
    } else {
        let all = good + rest;
        let less = good.skip(1);
        assert(all.skip(1) =~= less + rest);
        assert(all[0] == good[0]);
        assert(all_digits(less)) by {
            assert forall|i: int| 0 <= i < less.len() implies is_digit(#[trigger] less[i]) by {
                assert(less[i] == good[i + 1]);
            }
        }
        assert(is_digit(good[0]));
        let next = so_far * 10 + digit_value(good[0]);
        if next <= max {
            lemma_digits_then(less, rest, next, max);
        } else {
            lemma_value_grows(less, next);
        }
    }
}

// ---------------------------------------------------------------------------
// Lists

/// A list of strings holds the text of each, in order.
pub proof fn law_what_a_list_of_strings_holds(owned: Seq<String>, borrowed: Seq<&str>)
    ensures
        texts(owned).len() == owned.len(),
        forall|i: int| 0 <= i < owned.len() ==> #[trigger] texts(owned)[i] == owned[i]@,
        words(borrowed).len() == borrowed.len(),
        forall|i: int| 0 <= i < borrowed.len() ==> #[trigger] words(borrowed)[i] == borrowed[i]@,
{
}

/// An optional string holds its text, where there is one.
pub proof fn law_what_an_optional_string_holds(owned: String, borrowed: &str)
    ensures
        text_of(Some(owned)) == Some(owned@),
        text_of(None) is None,
        word_of(Some(borrowed)) == Some(borrowed@),
        word_of(None) is None,
{
}

} // verus!
