//! Lines of a conversation, put in the order in which they were said.
use vstd::prelude::*;

use crate::order::{before, lemma_before_irreflexive, lemma_before_total, lemma_before_transitive, precedes};

verus! {

/// One side of one exchange.
#[derive(Debug)]
pub struct Line {
    /// The full ISO stamp, not the pretty one. Lines are sorted by it, and
    /// `HH:MM` would interleave the days of a transcript that spans several.
    pub at: String,
    /// Whose line it is.
    pub who: &'static str,
    pub text: String,
}

/// What a [`Line`] holds.
pub struct LineModel {
    pub at: Seq<char>,
    pub who: Seq<char>,
    pub text: Seq<char>,
}

impl View for Line {
    type V = LineModel;

    open spec fn view(&self) -> LineModel {
        LineModel { at: self.at@, who: self.who@, text: self.text@ }
    }
}

/// What a list of lines holds.
pub open spec fn line_models(lines: Seq<Line>) -> Seq<LineModel> {
    lines.map_values(|line: Line| line@)
}

/// No line stands behind one with a later stamp.
pub open spec fn in_order(lines: Seq<LineModel>) -> bool {
    forall|i: int, j: int|
        0 <= i < j < lines.len() ==> !before((#[trigger] lines[j]).at, (#[trigger] lines[i]).at)
}

/// The lines with a given stamp, in the order in which they stand.
pub open spec fn stamped(lines: Seq<LineModel>, at: Seq<char>) -> Seq<LineModel>
    decreases lines.len(),
{
    if lines.len() == 0 {
        lines
    } else if lines.last().at == at {
        stamped(lines.drop_last(), at).push(lines.last())
    } else {
        stamped(lines.drop_last(), at)
    }
}

/// For every stamp the same lines, in the same order.
pub open spec fn same_lines(a: Seq<LineModel>, b: Seq<LineModel>) -> bool {
    forall|at: Seq<char>| #[trigger] stamped(a, at) == stamped(b, at)
}

/// `to` holds the lines of `from` in the order of their stamps, and lines with
/// one stamp in the order in which `from` has them.
pub open spec fn chronological(from: Seq<LineModel>, to: Seq<LineModel>) -> bool {
    in_order(to) && same_lines(from, to)
}

proof fn lemma_stamped_add(a: Seq<LineModel>, b: Seq<LineModel>, at: Seq<char>)
    ensures
        stamped(a + b, at) == stamped(a, at) + stamped(b, at),
    decreases b.len(),
{
    if b.len() == 0 {
        assert(a + b =~= a);
        assert(stamped(a, at) + stamped(b, at) =~= stamped(a, at));
    } else {
        assert((a + b).drop_last() =~= a + b.drop_last());
        lemma_stamped_add(a, b.drop_last(), at);
        assert(stamped(a + b, at) =~= stamped(a, at) + stamped(b, at));
    }
}

proof fn lemma_stamped_none(lines: Seq<LineModel>, at: Seq<char>)
    requires
        forall|i: int| 0 <= i < lines.len() ==> (#[trigger] lines[i]).at != at,
    ensures
        stamped(lines, at) == Seq::<LineModel>::empty(),
    decreases lines.len(),
{
    if lines.len() > 0 {
        lemma_stamped_none(lines.drop_last(), at);
    } else {
        assert(lines =~= Seq::empty());
    }
}

proof fn lemma_stamped_one(line: LineModel, at: Seq<char>)
    ensures
        stamped(seq![line], at) == if line.at == at {
            seq![line]
        } else {
            Seq::empty()
        },
{
    let one = seq![line];
    assert(one.drop_last() =~= Seq::<LineModel>::empty());
    assert(stamped(one.drop_last(), at) =~= Seq::<LineModel>::empty());
    assert(stamped(one, at) =~= if line.at == at {
        seq![line]
    } else {
        Seq::empty()
    });
}

/// A line is among the lines with its stamp, and only a line of the list is.
proof fn lemma_stamped_member(lines: Seq<LineModel>, at: Seq<char>)
    ensures
        stamped(lines, at).len() > 0 <==> exists|i: int|
            0 <= i < lines.len() && (#[trigger] lines[i]).at == at,
    decreases lines.len(),
{
    if exists|i: int| 0 <= i < lines.len() && (#[trigger] lines[i]).at == at {
        let i = choose|i: int| 0 <= i < lines.len() && (#[trigger] lines[i]).at == at;
        if lines.last().at != at {
            assert(lines.drop_last()[i].at == at);
            lemma_stamped_member(lines.drop_last(), at);
        }
    } else {
        lemma_stamped_none(lines, at);
    }
}

/// What is among the lines with a stamp is a line of the list.
proof fn lemma_stamped_contains(lines: Seq<LineModel>, line: LineModel)
    ensures
        stamped(lines, line.at).contains(line) <==> lines.contains(line),
    decreases lines.len(),
{
    if lines.len() > 0 {
        let fewer = lines.drop_last();
        let at = line.at;
        lemma_stamped_contains(fewer, line);
        assert(lines[lines.len() - 1] == lines.last());
        if fewer.contains(line) {
            let k = choose|k: int| 0 <= k < fewer.len() && fewer[k] == line;
            assert(lines[k] == line);
            let j = choose|j: int| 0 <= j < stamped(fewer, at).len() && stamped(fewer, at)[j] == line;
            assert(stamped(lines, at)[j] == line);
        }
        if lines.contains(line) {
            let k = choose|k: int| 0 <= k < lines.len() && lines[k] == line;
            if k < fewer.len() {
                assert(fewer[k] == line);
            } else {
                assert(stamped(lines, at).last() == line);
                assert(stamped(lines, at)[stamped(lines, at).len() - 1] == line);
            }
        }
        if stamped(lines, at).contains(line) {
            let j = choose|j: int| 0 <= j < stamped(lines, at).len() && stamped(lines, at)[j] == line;
            if j < stamped(fewer, at).len() {
                assert(stamped(fewer, at)[j] == line);
            } else {
                assert(line == lines.last());
            }
        }
    }
}

/// Lines put in order are the lines that there were.
pub proof fn lemma_member(from: Seq<LineModel>, to: Seq<LineModel>, line: LineModel)
    requires
        chronological(from, to),
    ensures
        from.contains(line) <==> to.contains(line),
{
    lemma_stamped_contains(from, line);
    lemma_stamped_contains(to, line);
    assert(stamped(from, line.at) == stamped(to, line.at));
}

/// Lines of which none comes behind the lines of another list.
spec fn none_after(lines: Seq<LineModel>, later: Seq<LineModel>) -> bool {
    forall|i: int, j: int|
        0 <= i < lines.len() && 0 <= j < later.len() ==> !before(
            (#[trigger] later[j]).at,
            (#[trigger] lines[i]).at,
        )
}

/// How far a merge has come: what is left of the two lists, and the later part
/// of the outcome.
spec fn merging(
    all: Seq<LineModel>,
    left: Seq<LineModel>,
    right: Seq<LineModel>,
    done: Seq<LineModel>,
) -> bool {
    &&& in_order(left)
    &&& in_order(right)
    &&& in_order(done)
    &&& none_after(left, done)
    &&& none_after(right, done)
    &&& same_lines(all, left + right + done)
}

/// The last line of a list in order comes behind the others.
proof fn lemma_prefix_in_order(lines: Seq<LineModel>)
    requires
        in_order(lines),
        lines.len() > 0,
    ensures
        in_order(lines.drop_last()),
        none_after(lines.drop_last(), seq![lines.last()]),
{
    let rest = lines.drop_last();
    assert forall|i: int, j: int| 0 <= i < j < rest.len() implies !before(
        (#[trigger] rest[j]).at,
        (#[trigger] rest[i]).at,
    ) by {
        assert(rest[i] == lines[i] && rest[j] == lines[j]);
    }
    assert forall|i: int, j: int|
        0 <= i < rest.len() && 0 <= j < seq![lines.last()].len() implies !before(
        (#[trigger] seq![lines.last()][j]).at,
        (#[trigger] rest[i]).at,
    ) by {
        assert(rest[i] == lines[i]);
        assert(lines[lines.len() - 1] == lines.last());
    }
}

proof fn lemma_none_after_add(lines: Seq<LineModel>, line: LineModel, later: Seq<LineModel>)
    requires
        none_after(lines, seq![line]),
        none_after(lines, later),
    ensures
        none_after(lines, seq![line] + later),
{
    let both = seq![line] + later;
    assert forall|i: int, j: int| 0 <= i < lines.len() && 0 <= j < both.len() implies !before(
        (#[trigger] both[j]).at,
        (#[trigger] lines[i]).at,
    ) by {
        if j == 0 {
            assert(seq![line][0] == both[0]);
        } else {
            assert(both[j] == later[j - 1]);
        }
    }
}

proof fn lemma_in_order_add(line: LineModel, later: Seq<LineModel>)
    requires
        in_order(later),
        none_after(seq![line], later),
    ensures
        in_order(seq![line] + later),
{
    let both = seq![line] + later;
    assert forall|i: int, j: int| 0 <= i < j < both.len() implies !before(
        (#[trigger] both[j]).at,
        (#[trigger] both[i]).at,
    ) by {
        assert(both[j] == later[j - 1]);
        if i > 0 {
            assert(both[i] == later[i - 1]);
        } else {
            assert(both[0] == seq![line][0]);
        }
    }
}

proof fn lemma_none_after_last(lines: Seq<LineModel>, later: Seq<LineModel>)
    requires
        none_after(lines, later),
        lines.len() > 0,
    ensures
        none_after(lines.drop_last(), later),
        none_after(seq![lines.last()], later),
{
    assert forall|i: int, j: int|
        0 <= i < lines.drop_last().len() && 0 <= j < later.len() implies !before(
        (#[trigger] later[j]).at,
        (#[trigger] lines.drop_last()[i]).at,
    ) by {
        assert(lines.drop_last()[i] == lines[i]);
    }
    assert forall|i: int, j: int|
        0 <= i < seq![lines.last()].len() && 0 <= j < later.len() implies !before(
        (#[trigger] later[j]).at,
        (#[trigger] seq![lines.last()][i]).at,
    ) by {
        assert(lines[lines.len() - 1] == seq![lines.last()][i]);
    }
}

/// The last line of the second list goes in front of the later part.
proof fn lemma_take_right(
    all: Seq<LineModel>,
    left: Seq<LineModel>,
    right: Seq<LineModel>,
    done: Seq<LineModel>,
)
    requires
        merging(all, left, right, done),
        right.len() > 0,
        left.len() > 0 ==> !before(right.last().at, left.last().at),
    ensures
        merging(all, left, right.drop_last(), seq![right.last()] + done),
{
    let m = right.last();
    let rest = right.drop_last();
    lemma_prefix_in_order(right);
    lemma_none_after_last(right, done);
    lemma_in_order_add(m, done);
    lemma_none_after_add(rest, m, done);
    assert(none_after(left, seq![m])) by {
        assert forall|i: int, j: int| 0 <= i < left.len() && 0 <= j < seq![m].len() implies !before(
            (#[trigger] seq![m][j]).at,
            (#[trigger] left[i]).at,
        ) by {
            lemma_bounded_by_last(left, i);
            lemma_not_before_chain(left[i].at, left.last().at, m.at);
        }
    }
    lemma_none_after_add(left, m, done);
    assert(left + right + done =~= left + rest + (seq![m] + done));
}

/// The last line of the first list goes in front of the later part.
proof fn lemma_take_left(
    all: Seq<LineModel>,
    left: Seq<LineModel>,
    right: Seq<LineModel>,
    done: Seq<LineModel>,
)
    requires
        merging(all, left, right, done),
        left.len() > 0,
        right.len() > 0 ==> before(right.last().at, left.last().at),
    ensures
        merging(all, left.drop_last(), right, seq![left.last()] + done),
{
    let m = left.last();
    let rest = left.drop_last();
    lemma_prefix_in_order(left);
    lemma_none_after_last(left, done);
    lemma_in_order_add(m, done);
    lemma_none_after_add(rest, m, done);
    assert forall|i: int| 0 <= i < right.len() implies before((#[trigger] right[i]).at, m.at) by {
        lemma_bounded_by_last(right, i);
        lemma_before_chain(right[i].at, right.last().at, m.at);
    }
    assert(none_after(right, seq![m])) by {
        assert forall|i: int, j: int| 0 <= i < right.len() && 0 <= j < seq![m].len() implies !before(
            (#[trigger] seq![m][j]).at,
            (#[trigger] right[i]).at,
        ) by {
            if before(m.at, right[i].at) {
                lemma_before_transitive(m.at, right[i].at, m.at);
                lemma_before_irreflexive(m.at);
            }
        }
    }
    lemma_none_after_add(right, m, done);
    assert forall|at: Seq<char>| #[trigger]
        stamped(all, at) == stamped(rest + right + (seq![m] + done), at) by {
        assert(stamped(all, at) == stamped(left + right + done, at));
        assert(left =~= rest + seq![m]);
        lemma_stamped_add(left + right, done, at);
        lemma_stamped_add(left, right, at);
        lemma_stamped_add(rest, seq![m], at);
        lemma_stamped_add(rest + right, seq![m] + done, at);
        lemma_stamped_add(rest, right, at);
        lemma_stamped_add(seq![m], done, at);
        lemma_stamped_one(m, at);
        if at == m.at {
            assert forall|i: int| 0 <= i < right.len() implies (#[trigger] right[i]).at != at by {
                lemma_before_irreflexive(at);
            }
            lemma_stamped_none(right, at);
        }
        assert(stamped(left + right + done, at) =~= stamped(
            rest + right + (seq![m] + done),
            at,
        ));
    }
}

/// Takes the two lists together, both in order; of two lines with one stamp,
/// the one from the first list comes first.
fn merge(left: Vec<Line>, right: Vec<Line>) -> (r: Vec<Line>)
    requires
        in_order(line_models(left@)),
        in_order(line_models(right@)),
    ensures
        chronological(line_models(left@) + line_models(right@), line_models(r@)),
{
    let ghost all = line_models(left@) + line_models(right@);
    let mut left = left;
    let mut right = right;
    // The later part of the outcome, latest line first.
    let mut late: Vec<Line> = Vec::new();
    let ghost mut done: Seq<LineModel> = Seq::empty();
    proof {
        assert(line_models(late@).reverse() =~= done);
        assert(all + done =~= all);
    }
    while left.len() > 0 || right.len() > 0
        invariant
            merging(all, line_models(left@), line_models(right@), done),
            line_models(late@).reverse() == done,
        decreases left.len() + right.len(),
    {
        let from_right = left.len() == 0 || (right.len() > 0 && !precedes(
            right[right.len() - 1].at.as_str(),
            left[left.len() - 1].at.as_str(),
        ));
        let ghost l = line_models(left@);
        let ghost r = line_models(right@);
        let ghost earlier = line_models(late@);
        proof {
            if from_right {
                lemma_take_right(all, l, r, done);
            } else {
                lemma_take_left(all, l, r, done);
            }
        }
        let popped = if from_right {
            right.pop()
        } else {
            left.pop()
        };
        if let Some(line) = popped {
            let ghost m = line@;
            late.push(line);
            proof {
                done = seq![m] + done;
                assert(line_models(late@) =~= earlier.push(m));
                assert(earlier.push(m).reverse() =~= seq![m] + earlier.reverse());
                if from_right {
                    assert(line_models(right@) =~= r.drop_last());
                } else {
                    assert(line_models(left@) =~= l.drop_last());
                }
            }
        }
    }
    proof {
        assert(line_models(left@) + line_models(right@) + done =~= done);
    }
    let mut out: Vec<Line> = Vec::new();
    assert(line_models(out@) + line_models(late@).reverse() =~= done);
    while late.len() > 0
        invariant
            line_models(out@) + line_models(late@).reverse() == done,
        decreases late.len(),
    {
        let ghost head = line_models(out@);
        let ghost tail = line_models(late@);
        if let Some(line) = late.pop() {
            let ghost m = line@;
            out.push(line);
            proof {
                assert(line_models(out@) =~= head.push(m));
                assert(tail =~= line_models(late@).push(m));
                assert(line_models(out@) + line_models(late@).reverse() =~= head
                    + tail.reverse());
            }
        }
    }
    assert(line_models(out@) =~= done);
    out
}

proof fn lemma_bounded_by_last(lines: Seq<LineModel>, i: int)
    requires
        in_order(lines),
        0 <= i < lines.len(),
    ensures
        !before(lines.last().at, lines[i].at),
{
    lemma_before_irreflexive(lines.last().at);
    assert(lines[lines.len() - 1] == lines.last());
}

/// From `a <= b` and `b <= c` follows `a <= c`.
proof fn lemma_not_before_chain(a: Seq<char>, b: Seq<char>, c: Seq<char>)
    requires
        !before(b, a),
        !before(c, b),
    ensures
        !before(c, a),
{
    lemma_before_total(a, b);
    lemma_before_total(b, c);
    if before(c, a) {
        if before(a, b) {
            lemma_before_transitive(c, a, b);
        }
    }
}

/// From `a <= b` and `b < c` follows `a < c`.
proof fn lemma_before_chain(a: Seq<char>, b: Seq<char>, c: Seq<char>)
    requires
        !before(b, a),
        before(b, c),
    ensures
        before(a, c),
{
    lemma_before_total(a, b);
    if before(a, b) {
        lemma_before_transitive(a, b, c);
    }
}

/// Puts lines in the order of their stamps.
pub fn sort(lines: Vec<Line>) -> (r: Vec<Line>)
    ensures
        chronological(line_models(lines@), line_models(r@)),
    decreases lines.len(),
{
    if lines.len() <= 1 {
        return lines;
    }
    let ghost all = line_models(lines@);
    let mut left = lines;
    let middle: usize = left.len() / 2;
    let right = left.split_off(middle);
    let ghost l = line_models(left@);
    let ghost r = line_models(right@);
    let left = sort(left);
    let right = sort(right);
    let out = merge(left, right);
    proof {
        assert(all =~= l + r);
        assert forall|at: Seq<char>| #[trigger] stamped(all, at) == stamped(
            line_models(out@),
            at,
        ) by {
            lemma_stamped_add(l, r, at);
            lemma_stamped_add(line_models(left@), line_models(right@), at);
        }
    }
    out
}

/// The order is determined: there is one way to put lines in it.
pub proof fn law_order_is_determined(
    from: Seq<LineModel>,
    a: Seq<LineModel>,
    b: Seq<LineModel>,
)
    requires
        chronological(from, a),
        chronological(from, b),
    ensures
        a == b,
{
    assert forall|at: Seq<char>| #[trigger] stamped(a, at) == stamped(b, at) by {
        assert(stamped(from, at) == stamped(a, at));
    }
    lemma_determined(a, b);
}

proof fn lemma_determined(a: Seq<LineModel>, b: Seq<LineModel>)
    requires
        in_order(a),
        in_order(b),
        same_lines(a, b),
    ensures
        a == b,
    decreases a.len(),
{
    if a.len() == 0 {
        if b.len() > 0 {
            let at = b[0].at;
            lemma_stamped_member(b, at);
            assert(stamped(a, at).len() == 0);
        }
        assert(a =~= b);
    } else {
        let at = a.last().at;
        assert(a[a.len() - 1].at == at);
        lemma_stamped_member(a, at);
        lemma_stamped_member(b, at);
        assert(stamped(a, at) == stamped(b, at));
        let i = choose|i: int| 0 <= i < b.len() && (#[trigger] b[i]).at == at;
        let latest = b.last().at;
        assert(b[b.len() - 1].at == latest);
        lemma_stamped_member(b, latest);
        lemma_stamped_member(a, latest);
        assert(stamped(a, latest) == stamped(b, latest));
        let j = choose|j: int| 0 <= j < a.len() && (#[trigger] a[j]).at == latest;
        lemma_bounded_by_last(a, j);
        lemma_bounded_by_last(b, i);
        lemma_before_total(at, latest);
        assert(at == latest);
        assert(stamped(a, at).last() == a.last());
        assert(stamped(b, at).last() == b.last());
        let a2 = a.drop_last();
        let b2 = b.drop_last();
        assert forall|s: Seq<char>| #[trigger] stamped(a2, s) == stamped(b2, s) by {
            assert(stamped(a, s) == stamped(b, s));
            if s == at {
                assert(stamped(a2, s) =~= stamped(a, s).drop_last());
                assert(stamped(b2, s) =~= stamped(b, s).drop_last());
            }
        }
        assert(in_order(a2)) by {
            assert forall|i: int, j: int| 0 <= i < j < a2.len() implies !before(
                (#[trigger] a2[j]).at,
                (#[trigger] a2[i]).at,
            ) by {
                assert(a2[i] == a[i] && a2[j] == a[j]);
            }
        }
        assert(in_order(b2)) by {
            assert forall|i: int, j: int| 0 <= i < j < b2.len() implies !before(
                (#[trigger] b2[j]).at,
                (#[trigger] b2[i]).at,
            ) by {
                assert(b2[i] == b[i] && b2[j] == b[j]);
            }
        }
        lemma_determined(a2, b2);
        assert(a =~= a2.push(a.last()));
        assert(b =~= b2.push(b.last()));
    }
}

proof fn lemma_stamped_is_a_filter(lines: Seq<LineModel>, at: Seq<char>)
    ensures
        stamped(lines, at) == lines.filter(|line: LineModel| line.at == at),
    decreases lines.len(),
{
    reveal(Seq::filter);
    if lines.len() > 0 {
        lemma_stamped_is_a_filter(lines.drop_last(), at);
    }
}

proof fn lemma_stamped_count(lines: Seq<LineModel>, line: LineModel)
    ensures
        lines.to_multiset().count(line) == stamped(lines, line.at).to_multiset().count(line),
    decreases lines.len(),
{
    broadcast use vstd::seq_lib::group_to_multiset_ensures;

    if lines.len() > 0 {
        let less = lines.drop_last();
        lemma_stamped_count(less, line);
        assert(lines =~= less.push(lines.last()));
    } else {
        assert(stamped(lines, line.at) =~= lines);
    }
}

/// Putting lines in order loses none, doubles none and makes up none; no line
/// stands behind one with a later stamp; and lines with one stamp keep the order
/// that they had.
pub proof fn law_sorting_keeps_every_line(
    from: Seq<LineModel>,
    to: Seq<LineModel>,
    at: Seq<char>,
)
    requires
        chronological(from, to),
    ensures
        to.to_multiset() == from.to_multiset(),
        to.len() == from.len(),
        to.filter(|line: LineModel| line.at == at) == from.filter(|line: LineModel| line.at == at),
        forall|i: int, j: int|
            0 <= i < j < to.len() ==> !before((#[trigger] to[j]).at, (#[trigger] to[i]).at),
{
    broadcast use vstd::seq_lib::group_to_multiset_ensures;

    assert(stamped(from, at) == stamped(to, at));
    lemma_stamped_is_a_filter(from, at);
    lemma_stamped_is_a_filter(to, at);
    assert forall|line: LineModel|
        #![trigger to.to_multiset().count(line)]
        to.to_multiset().count(line) == from.to_multiset().count(line) by {
        lemma_stamped_count(from, line);
        lemma_stamped_count(to, line);
        assert(stamped(from, line.at) == stamped(to, line.at));
    }
    assert(to.to_multiset() =~= from.to_multiset());
    assert(to.to_multiset().len() == to.len());
    assert(from.to_multiset().len() == from.len());
}

proof fn lemma_filter_multiset(lines: Seq<LineModel>, which: spec_fn(LineModel) -> bool)
    ensures
        lines.filter(which).to_multiset() == lines.to_multiset().filter(which),
    decreases lines.len(),
{
    broadcast use vstd::seq_lib::group_to_multiset_ensures;

    reveal(Seq::filter);
    if lines.len() > 0 {
        let less = lines.drop_last();
        lemma_filter_multiset(less, which);
        assert(lines =~= less.push(lines.last()));
        assert(lines.filter(which).to_multiset() =~= lines.to_multiset().filter(which));
    } else {
        assert(lines.filter(which).to_multiset() =~= lines.to_multiset().filter(which));
    }
}

/// Of any kind of lines there are as many in order as there were before.
pub proof fn law_sorting_keeps_counts(
    from: Seq<LineModel>,
    to: Seq<LineModel>,
    which: spec_fn(LineModel) -> bool,
)
    requires
        chronological(from, to),
    ensures
        to.filter(which).len() == from.filter(which).len(),
{
    broadcast use vstd::seq_lib::group_to_multiset_ensures;

    law_sorting_keeps_every_line(from, to, Seq::empty());
    lemma_filter_multiset(from, which);
    lemma_filter_multiset(to, which);
    assert(to.filter(which).len() == to.filter(which).to_multiset().len());
    assert(from.filter(which).len() == from.filter(which).to_multiset().len());
}

} // verus!
