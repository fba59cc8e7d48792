//! Text, read one character at a time.
//!
//! Every rule of this library is about what some text says, so this module
//! gives each string operation that the rules use a mathematical meaning over
//! `Seq<char>` and an executable form that is proved to compute it.
use vstd::prelude::*;
use vstd::string::{StrSliceExecFns, StringExecFns};

verus! {

/// The texts of owned strings.
pub open spec fn texts(strings: Seq<String>) -> Seq<Seq<char>> {
    strings.map_values(|s: String| s@)
}

/// The texts of borrowed strings.
pub open spec fn words(strings: Seq<&str>) -> Seq<Seq<char>> {
    strings.map_values(|s: &str| s@)
}

/// The text of an optional owned string.
pub open spec fn text_of(string: Option<String>) -> Option<Seq<char>> {
    match string {
        Some(s) => Some(s@),
        None => None,
    }
}

/// The text of an optional borrowed string.
pub open spec fn word_of(string: Option<&str>) -> Option<Seq<char>> {
    match string {
        Some(s) => Some(s@),
        None => None,
    }
}

/// The characters of a string, one element each.
pub fn chars_of(s: &str) -> (r: Vec<char>)
    ensures
        r@ == s@,
{
    let mut out: Vec<char> = Vec::new();
    for c in it: s.chars()
        invariant
            it.seq() == s@,
            out@ == it.seq().take(it.index() as int),
    {
        out.push(c);
    }
    out
}

/// Whether two strings hold the same text.
pub fn same(a: &str, b: &str) -> (r: bool)
    ensures
        r == (a@ == b@),
{
    a.to_owned() == b.to_owned()
}

/// Whether one of the strings is the given text.
pub fn any_is(list: &[&str], wanted: &str) -> (r: bool)
    ensures
        r == words(list@).contains(wanted@),
{
    let mut i: usize = 0;
    while i < list.len()
        invariant
            i <= list.len(),
            forall|j: int| 0 <= j < i ==> words(list@)[j] != wanted@,
        decreases list.len() - i,
    {
        if same(list[i], wanted) {
            assert(words(list@)[i as int] == wanted@);
            return true;
        }
        i += 1;
    }
    false
}

// ---------------------------------------------------------------------------
// White space

/// The characters with the Unicode property `White_Space`.
pub open spec fn is_space(c: char) -> bool {
    let n = c as u32;
    ||| 0x09 <= n <= 0x0d
    ||| n == 0x20
    ||| n == 0x85
    ||| n == 0xa0
    ||| n == 0x1680
    ||| 0x2000 <= n <= 0x200a
    ||| n == 0x2028
    ||| n == 0x2029
    ||| n == 0x202f
    ||| n == 0x205f
    ||| n == 0x3000
}

/// Whether a character is white space.
pub fn space(c: char) -> (r: bool)
    ensures
        r == is_space(c),
{
    let n: u32 = c as u32;
    (0x09 <= n && n <= 0x0d) || n == 0x20 || n == 0x85 || n == 0xa0 || n == 0x1680 || (0x2000 <= n
        && n <= 0x200a) || n == 0x2028 || n == 0x2029 || n == 0x202f || n == 0x205f || n == 0x3000
}

/// A text without its leading white space.
pub open spec fn trimmed_start(s: Seq<char>) -> Seq<char>
    decreases s.len(),
{
    if s.len() > 0 && is_space(s[0]) {
        trimmed_start(s.skip(1))
    } else {
        s
    }
}

/// A text without its trailing white space.
pub open spec fn trimmed_end(s: Seq<char>) -> Seq<char>
    decreases s.len(),
{
    if s.len() > 0 && is_space(s.last()) {
        trimmed_end(s.drop_last())
    } else {
        s
    }
}

/// A text without the white space around it.
pub open spec fn trimmed(s: Seq<char>) -> Seq<char> {
    trimmed_end(trimmed_start(s))
}

/// Removes leading white space.
pub fn trim_start(s: &str) -> (r: &str)
    ensures
        r@ == trimmed_start(s@),
{
    let chars = chars_of(s);
    let mut from: usize = 0;
    assert(s@.skip(0) =~= s@);
    while from < chars.len() && space(chars[from])
        invariant
            from <= chars.len(),
            chars@ == s@,
            trimmed_start(s@) == trimmed_start(s@.skip(from as int)),
        decreases chars.len() - from,
    {
        assert(s@.skip(from as int).skip(1) =~= s@.skip(from + 1));
        from += 1;
    }
    assert(s@.skip(from as int) =~= s@.subrange(from as int, s@.len() as int));
    s.substring_char(from, chars.len())
}

/// Removes the white space around a text.
pub fn trim(s: &str) -> (r: String)
    ensures
        r@ == trimmed(s@),
{
    let start = trim_start(s);
    let chars = chars_of(start);
    let mut to: usize = chars.len();
    assert(start@.take(to as int) =~= start@);
    while to > 0 && space(chars[to - 1])
        invariant
            to <= chars.len(),
            chars@ == start@,
            trimmed_end(start@) == trimmed_end(start@.take(to as int)),
        decreases to,
    {
        assert(start@.take(to as int).drop_last() =~= start@.take(to - 1));
        to -= 1;
    }
    assert(start@.take(to as int) =~= start@.subrange(0, to as int));
    start.substring_char(0, to).to_owned()
}

/// Whether a text is nothing but white space.
pub open spec fn is_blank(s: Seq<char>) -> bool {
    trimmed(s).len() == 0
}

/// Whether a text is nothing but white space.
pub fn blank(s: &str) -> (r: bool)
    ensures
        r == is_blank(s@),
{
    trim(s).as_str().is_empty()
}

/// A text with every white space character left out.
pub open spec fn squeezed(s: Seq<char>) -> Seq<char>
    decreases s.len(),
{
    if s.len() == 0 {
        s
    } else if is_space(s.last()) {
        squeezed(s.drop_last())
    } else {
        squeezed(s.drop_last()).push(s.last())
    }
}

/// The characters of a text that are not white space.
pub fn squeeze(s: &str) -> (r: Vec<char>)
    ensures
        r@ == squeezed(s@),
{
    let chars = chars_of(s);
    let mut out: Vec<char> = Vec::new();
    let mut i: usize = 0;
    while i < chars.len()
        invariant
            i <= chars.len(),
            chars@ == s@,
            out@ == squeezed(s@.take(i as int)),
        decreases chars.len() - i,
    {
        assert(s@.take(i + 1).drop_last() =~= s@.take(i as int));
        if !space(chars[i]) {
            out.push(chars[i]);
        }
        i += 1;
    }
    assert(s@.take(i as int) =~= s@);
    out
}

// ---------------------------------------------------------------------------
// Searching and splitting

/// Whether `needle` stands in `hay` at position `at`.
pub open spec fn occurs_at(hay: Seq<char>, needle: Seq<char>, at: int) -> bool {
    0 <= at && at + needle.len() <= hay.len() && hay.subrange(at, at + needle.len()) == needle
}

/// Whether `needle` stands somewhere in `hay`.
pub open spec fn occurs(hay: Seq<char>, needle: Seq<char>) -> bool {
    exists|at: int| occurs_at(hay, needle, at)
}

/// The first position of `needle` in `hay` that is not before `from`.
pub open spec fn found(hay: Seq<char>, needle: Seq<char>, from: int) -> Option<int>
    decreases hay.len() + 1 - from,
{
    if from < 0 || from + needle.len() > hay.len() {
        None
    } else if occurs_at(hay, needle, from) {
        Some(from)
    } else {
        found(hay, needle, from + 1)
    }
}

/// `found` gives the least position, and gives none only where there is none.
pub proof fn lemma_found(hay: Seq<char>, needle: Seq<char>, from: int)
    requires
        0 <= from,
    ensures
        match found(hay, needle, from) {
            Some(at) => from <= at && occurs_at(hay, needle, at) && forall|i: int|
                from <= i < at ==> !occurs_at(hay, needle, i),
            None => forall|i: int| from <= i ==> !occurs_at(hay, needle, i),
        },
    decreases hay.len() + 1 - from,
{
    if from + needle.len() <= hay.len() && !occurs_at(hay, needle, from) {
        lemma_found(hay, needle, from + 1);
    }
}

/// Whether `needle` stands in `hay` at position `at`.
fn stands_at(hay: &Vec<char>, needle: &Vec<char>, at: usize) -> (r: bool)
    requires
        at + needle@.len() <= hay@.len(),
    ensures
        r == occurs_at(hay@, needle@, at as int),
{
    let mut k: usize = 0;
    let len: usize = hay.len();
    while k < needle.len()
        invariant
            len == hay@.len(),
            at + needle@.len() <= len,
            k <= needle@.len(),
            forall|j: int| 0 <= j < k ==> hay@[at + j] == needle@[j],
        decreases needle.len() - k,
    {
        if hay[at + k] != needle[k] {
            assert(hay@.subrange(at as int, at + needle@.len())[k as int] != needle@[k as int]);
            return false;
        }
        k += 1;
    }
    assert(hay@.subrange(at as int, at + needle@.len()) =~= needle@);
    true
}

/// The first position of `needle` in `hay`.
pub fn find(hay: &Vec<char>, needle: &Vec<char>) -> (r: Option<usize>)
    ensures
        found(hay@, needle@, 0) == (match r {
            Some(at) => Some(at as int),
            None => None,
        }),
{
    if needle.len() > hay.len() {
        return None;
    }
    let last: usize = hay.len() - needle.len();
    let mut at: usize = 0;
    while at < last
        invariant
            at <= last,
            last + needle@.len() == hay@.len(),
            found(hay@, needle@, 0) == found(hay@, needle@, at as int),
        decreases last - at,
    {
        if stands_at(hay, needle, at) {
            return Some(at);
        }
        at += 1;
    }
    if stands_at(hay, needle, at) {
        Some(at)
    } else {
        assert(found(hay@, needle@, at + 1) is None);
        None
    }
}

/// Whether `needle` stands somewhere in `hay`.
pub fn contains_chars(hay: &Vec<char>, needle: &Vec<char>) -> (r: bool)
    ensures
        r == occurs(hay@, needle@),
{
    proof {
        lemma_found(hay@, needle@, 0);
    }
    find(hay, needle).is_some()
}

/// Whether `needle` stands somewhere in `hay`.
pub fn contains(hay: &str, needle: &str) -> (r: bool)
    ensures
        r == occurs(hay@, needle@),
{
    contains_chars(&chars_of(hay), &chars_of(needle))
}

/// Whether a text begins with another.
pub open spec fn begins(s: Seq<char>, prefix: Seq<char>) -> bool {
    occurs_at(s, prefix, 0)
}

/// Whether a text begins with another.
pub fn starts_with(s: &str, prefix: &str) -> (r: bool)
    ensures
        r == begins(s@, prefix@),
{
    let chars = chars_of(s);
    let start = chars_of(prefix);
    start.len() <= chars.len() && stands_at(&chars, &start, 0)
}

/// What stands before and after the first `mark`.
pub open spec fn parted(s: Seq<char>, mark: Seq<char>) -> Option<(Seq<char>, Seq<char>)> {
    match found(s, mark, 0) {
        Some(at) => Some((s.take(at), s.skip(at + mark.len()))),
        None => None,
    }
}

/// Splits a text around the first `mark`.
pub fn split_once<'a>(s: &'a str, mark: &str) -> (r: Option<(&'a str, &'a str)>)
    ensures
        parted(s@, mark@) == (match r {
            Some((before, after)) => Some((before@, after@)),
            None => None,
        }),
{
    let chars = chars_of(s);
    let sought = chars_of(mark);
    proof {
        lemma_found(s@, mark@, 0);
    }
    match find(&chars, &sought) {
        Some(at) => {
            assert(s@.take(at as int) =~= s@.subrange(0, at as int));
            assert(s@.skip(at + mark@.len()) =~= s@.subrange(at + mark@.len(), s@.len() as int));
            let len: usize = chars.len();
            assert(at + sought@.len() <= len);
            Some((s.substring_char(0, at), s.substring_char(at + sought.len(), len)))
        },
        None => None,
    }
}

/// A line without the carriage return of its line ending.
pub open spec fn without_return(s: Seq<char>) -> Seq<char> {
    if s.len() > 0 && s.last() == '\r' {
        s.drop_last()
    } else {
        s
    }
}

/// The lines of a text. A line ends with a line feed, or with a carriage return
/// and a line feed; the ending is not part of the line, and the last line may
/// lack it.
pub open spec fn lines_of(s: Seq<char>) -> Seq<Seq<char>>
    decreases s.len(),
{
    if s.len() == 0 {
        Seq::empty()
    } else {
        match found(s, seq!['\n'], 0) {
            Some(at) => if 0 <= at < s.len() {
                seq![without_return(s.take(at))] + lines_of(s.skip(at + 1))
            } else {
                Seq::empty()
            },
            None => seq![s],
        }
    }
}

/// Splits a text into its lines.
pub fn lines(s: &str) -> (r: Vec<String>)
    ensures
        texts(r@) == lines_of(s@),
{
    let mut out: Vec<String> = Vec::new();
    let mut rest: &str = s;
    let mark = "\n";
    proof {
        reveal_strlit("\n");
        assert(mark@ =~= seq!['\n']);
        assert(texts(out@) + lines_of(rest@) =~= lines_of(s@));
    }
    while !rest.is_empty()
        invariant
            mark@ == seq!['\n'],
            texts(out@) + lines_of(rest@) == lines_of(s@),
        decreases rest@.len(),
    {
        let ghost before = texts(out@);
        proof {
            lemma_found(rest@, mark@, 0);
        }
        match split_once(rest, mark) {
            Some((line, after)) => {
                let chars = chars_of(line);
                let line = if chars.len() > 0 && chars[chars.len() - 1] == '\r' {
                    assert(line@.drop_last() =~= line@.subrange(0, line@.len() - 1));
                    line.substring_char(0, chars.len() - 1)
                } else {
                    line
                };
                out.push(line.to_owned());
                proof {
                    assert(texts(out@) =~= before.push(line@));
                    assert(texts(out@) + lines_of(after@) =~= before + (seq![line@] + lines_of(after@)));
                }
                rest = after;
            },
            None => {
                out.push(rest.to_owned());
                proof {
                    assert(texts(out@) =~= before.push(rest@));
                    assert(texts(out@) =~= before + seq![rest@]);
                }
                return out;
            },
        }
    }
    assert(texts(out@) + lines_of(rest@) =~= texts(out@));
    out
}

/// Texts one after the other with a separator between two.
pub open spec fn joined(parts: Seq<Seq<char>>, between: Seq<char>) -> Seq<char>
    decreases parts.len(),
{
    if parts.len() == 0 {
        Seq::empty()
    } else if parts.len() == 1 {
        parts[0]
    } else {
        joined(parts.drop_last(), between) + between + parts.last()
    }
}

/// Joins borrowed strings.
pub fn join(parts: &Vec<&str>, between: &str) -> (r: String)
    ensures
        r@ == joined(words(parts@), between@),
{
    let mut out = String::new();
    let mut i: usize = 0;
    while i < parts.len()
        invariant
            i <= parts.len(),
            out@ == joined(words(parts@).take(i as int), between@),
        decreases parts.len() - i,
    {
        assert(words(parts@).take(i + 1).drop_last() =~= words(parts@).take(i as int));
        if i > 0 {
            out.append(between);
        }
        out.append(parts[i]);
        proof {
            if i == 0 {
                assert(out@ =~= words(parts@).take(1)[0]);
            }
        }
        i += 1;
    }
    assert(words(parts@).take(i as int) =~= words(parts@));
    out
}

/// Joins owned strings.
pub fn join_strings(parts: &Vec<String>, between: &str) -> (r: String)
    ensures
        r@ == joined(texts(parts@), between@),
{
    let mut borrowed: Vec<&str> = Vec::new();
    let mut i: usize = 0;
    while i < parts.len()
        invariant
            i <= parts.len(),
            words(borrowed@) == texts(parts@).take(i as int),
        decreases parts.len() - i,
    {
        let ghost before = borrowed@;
        borrowed.push(parts[i].as_str());
        assert(words(borrowed@) =~= words(before).push(parts@[i as int]@));
        i += 1;
        assert(words(borrowed@) =~= texts(parts@).take(i as int));
    }
    assert(texts(parts@).take(i as int) =~= texts(parts@));
    join(&borrowed, between)
}

} // verus!
