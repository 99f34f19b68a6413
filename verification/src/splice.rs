//! Edits of a text that keep track of the lines that its parts come from.
use vstd::prelude::*;
use crate::syntax;
use crate::syntax::SyntaxTree;
use crate::text;

verus! {

/// A piece of source text, by its bytes, and the text that goes in its place.
pub struct Edit {
    pub start: usize,
    pub end: usize,
    pub text: String,
}

/// An edit, as a mathematical value.
#[verifier::ext_equal]
pub struct EditView {
    pub start: int,
    pub end: int,
    pub text: Seq<char>,
}

impl View for Edit {
    type V = EditView;

    open spec fn view(&self) -> EditView {
        EditView { start: self.start as int, end: self.end as int, text: self.text@ }
    }
}

/// A list of edits, each by its view.
pub open spec fn edits_view(v: Seq<Edit>) -> Seq<EditView> {
    v.map_values(|e: Edit| e@)
}

/// Appends an edit.
pub fn push_edit(v: &mut Vec<Edit>, e: Edit)
    ensures
        edits_view(final(v)@) == edits_view(old(v)@).push(e@),
{
    v.push(e);
}

/// Whether an edit comes before another: by its start, then by its end.
pub open spec fn sooner(a: EditView, b: EditView) -> bool {
    a.start < b.start || (a.start == b.start && a.end < b.end)
}

/// A sorted list of edits with one more put after those that it does not come before.
pub open spec fn placed(s: Seq<EditView>, e: EditView) -> Seq<EditView>
    decreases s.len(),
{
    if s.len() > 0 && sooner(e, s.last()) {
        placed(s.drop_last(), e).push(s.last())
    } else {
        s.push(e)
    }
}

/// The edits by their places. Those at the same place keep their order.
pub open spec fn by_place(s: Seq<EditView>) -> Seq<EditView>
    decreases s.len(),
{
    if s.len() == 0 {
        Seq::empty()
    } else {
        placed(by_place(s.drop_last()), s.last())
    }
}

/// Whether no edit comes before one that stands earlier in the list.
pub open spec fn in_place(s: Seq<EditView>) -> bool {
    forall|i: int, j: int| 0 <= i < j < s.len() ==> !sooner(#[trigger] s[j], #[trigger] s[i])
}

proof fn lemma_placed(s: Seq<EditView>, e: EditView)
    requires
        in_place(s),
    ensures
        in_place(placed(s, e)),
        placed(s, e).len() == s.len() + 1,
        placed(s, e).to_multiset() == s.to_multiset().insert(e),
        forall|i: int| 0 <= i < placed(s, e).len() ==> s.contains(#[trigger] placed(s, e)[i]) || placed(s, e)[i] == e,
    decreases s.len(),
{
    let r = placed(s, e);
    if s.len() > 0 && sooner(e, s.last()) {
        let front = s.drop_last();
        lemma_placed(front, e);
        let inner = placed(front, e);
        assert(s == front.push(s.last()));
        vstd::seq_lib::to_multiset_build(front, s.last());
        vstd::seq_lib::to_multiset_build(inner, s.last());
        assert(r.to_multiset() =~= s.to_multiset().insert(e));
        assert forall|i: int| 0 <= i < r.len() implies s.contains(#[trigger] r[i]) || r[i] == e by {
            if i < inner.len() {
                assert(r[i] == inner[i]);
                if front.contains(inner[i]) {
                    let k = choose|k: int| 0 <= k < front.len() && front[k] == inner[i];
                    assert(s[k] == r[i]);
                }
            } else {
                assert(s[s.len() - 1] == r[i]);
            }
        }
        assert forall|i: int, j: int| 0 <= i < j < r.len() implies !sooner(#[trigger] r[j], #[trigger] r[i]) by {
            if j < inner.len() {
                assert(r[i] == inner[i] && r[j] == inner[j]);
            } else {
                assert(r[i] == inner[i]);
                if inner[i] != e {
                    let k = choose|k: int| 0 <= k < front.len() && front[k] == inner[i];
                    assert(s[k] == r[i]);
                }
            }
        }
    } else {
        vstd::seq_lib::to_multiset_build(s, e);
        assert forall|i: int| 0 <= i < r.len() implies s.contains(#[trigger] r[i]) || r[i] == e by {
            if i < s.len() {
                assert(s[i] == r[i]);
            }
        }
        assert forall|i: int, j: int| 0 <= i < j < r.len() implies !sooner(#[trigger] r[j], #[trigger] r[i]) by {
            if j < s.len() {
                assert(r[i] == s[i] && r[j] == s[j]);
            } else {
                assert(r[i] == s[i]);
                assert(!sooner(e, s.last()));
                if i < s.len() - 1 {
                    assert(!sooner(s[s.len() - 1], s[i]));
                }
            }
        }
    }
}

/// Sorting edits by their places loses none, adds none, and leaves none before one that it
/// comes after.
pub proof fn law_by_place_sorts(s: Seq<EditView>)
    ensures
        in_place(by_place(s)),
        by_place(s).to_multiset() == s.to_multiset(),
    decreases s.len(),
{
    if s.len() > 0 {
        law_by_place_sorts(s.drop_last());
        lemma_placed(by_place(s.drop_last()), s.last());
        vstd::seq_lib::to_multiset_build(s.drop_last(), s.last());
        assert(s == s.drop_last().push(s.last()));
    } else {
        assert(by_place(s) == s);
    }
}

/// Where an edit stands in a text, by its characters, if it can be made after position `k`.
pub open spec fn span_of(s: Seq<char>, e: EditView, k: int) -> Option<(int, int)> {
    match (syntax::char_index(s, e.start), syntax::char_index(s, e.end)) {
        (Some(a), Some(b)) => if k <= a <= b {
            Some((a, b))
        } else {
            None
        },
        _ => None,
    }
}

/// The row of the source, counted from zero, that position `k` is on.
pub open spec fn row_of(s: Seq<char>, k: int) -> int {
    text::count(s.take(k), '\n')
}

/// The rows of the characters of the source from `a` up to `b`: for each the row of its first
/// byte and that of its last.
pub open spec fn kept_rows(s: Seq<char>, a: int, b: int) -> Seq<(int, int)>
    decreases b - a,
{
    if a >= b {
        Seq::empty()
    } else {
        kept_rows(s, a, b - 1).push((row_of(s, b - 1), row_of(s, b - 1)))
    }
}

/// The rows that the characters of a replacement come from: its first byte comes from the row
/// on which what it replaces starts, the others from the row on which that ends.
pub open spec fn put_rows(text: Seq<char>, first: int, last: int) -> Seq<(int, int)>
    decreases text.len(),
{
    if text.len() == 0 {
        Seq::empty()
    } else if text.len() == 1 {
        seq![
            (
                first,
                if syntax::width(text[0]) == 1 {
                    first
                } else {
                    last
                },
            ),
        ]
    } else {
        put_rows(text.drop_last(), first, last).push((last, last))
    }
}

/// A text from position `k` on with edits made in order. One that starts before the end of
/// an earlier one, or that does not stand between characters, is left out.
pub open spec fn spliced(s: Seq<char>, es: Seq<EditView>, k: int) -> Seq<char>
    decreases es.len(),
{
    if es.len() == 0 {
        s.subrange(k, s.len() as int)
    } else {
        match span_of(s, es[0], k) {
            Some((a, b)) => s.subrange(k, a) + es[0].text + spliced(s, es.drop_first(), b),
            None => spliced(s, es.drop_first(), k),
        }
    }
}

/// The rows that the characters of an edited text come from.
pub open spec fn spliced_rows(s: Seq<char>, es: Seq<EditView>, k: int) -> Seq<(int, int)>
    decreases es.len(),
{
    if es.len() == 0 {
        kept_rows(s, k, s.len() as int)
    } else {
        match span_of(s, es[0], k) {
            Some((a, b)) => kept_rows(s, k, a) + put_rows(es[0].text, row_of(s, a), row_of(s, b)) + spliced_rows(
                s,
                es.drop_first(),
                b,
            ),
            None => spliced_rows(s, es.drop_first(), k),
        }
    }
}

/// The number, counted from one, of a row counted from zero, as far as numbers go.
pub open spec fn line_number(row: int) -> int {
    if row < u32::MAX {
        row + 1
    } else {
        u32::MAX as int
    }
}

/// The lines of the source that the finished lines of a text come from, and the rows that its
/// last line comes from, if that has begun.
pub open spec fn spans_so_far(s: Seq<char>, rows: Seq<(int, int)>) -> (Seq<(int, int)>, Option<(int, int)>)
    decreases s.len(),
{
    if s.len() == 0 {
        (Seq::empty(), None)
    } else {
        let (spans, open) = spans_so_far(s.drop_last(), rows.drop_last());
        let first = match open {
            Some((a, _)) => a,
            None => rows.last().0,
        };
        if s.last() == '\n' {
            (spans.push((line_number(first), line_number(rows.last().1))), None)
        } else {
            (spans, Some((first, rows.last().1)))
        }
    }
}

/// The lines of the source that each line of a text comes from, given the rows that its
/// characters come from.
pub open spec fn line_spans(s: Seq<char>, rows: Seq<(int, int)>) -> Seq<(int, int)> {
    match spans_so_far(s, rows).1 {
        Some((a, b)) => spans_so_far(s, rows).0.push((line_number(a), line_number(b))),
        None => spans_so_far(s, rows).0,
    }
}

/// The lines of a text that nothing was taken out of, each from itself.
pub open spec fn identity_spans(s: Seq<char>) -> Seq<(int, int)> {
    Seq::new(text::lines(s).len(), |j: int| (line_number(j), line_number(j)))
}

/// A line map as mathematical integers.
pub open spec fn map_view(v: Seq<(u32, u32)>) -> Seq<(int, int)> {
    v.map_values(|p: (u32, u32)| (p.0 as int, p.1 as int))
}

proof fn lemma_count_concat(a: Seq<char>, b: Seq<char>, c: char)
    ensures
        text::count(a + b, c) == text::count(a, c) + text::count(b, c),
    decreases b.len(),
{
    if b.len() == 0 {
        assert(a + b == a);
    } else {
        lemma_count_concat(a, b.drop_last(), c);
        assert((a + b).drop_last() == a + b.drop_last());
        assert((a + b).last() == b.last());
    }
}

proof fn lemma_index_first(s: Seq<char>, c: char, i: int)
    requires
        0 <= i,
    ensures
        match text::index_from(s, c, i) {
            Some(k) => i <= k < s.len() && s[k] == c && forall|j: int| i <= j < k ==> #[trigger] s[j] != c,
            None => forall|j: int| i <= j < s.len() ==> #[trigger] s[j] != c,
        },
    decreases s.len() - i,
{
    if i < s.len() && s[i] != c {
        lemma_index_first(s, c, i + 1);
    }
}

proof fn lemma_count_none(s: Seq<char>, c: char)
    requires
        forall|j: int| 0 <= j < s.len() ==> #[trigger] s[j] != c,
    ensures
        text::count(s, c) == 0,
    decreases s.len(),
{
    if s.len() > 0 {
        assert(s[s.len() - 1] == s.last());
        lemma_count_none(s.drop_last(), c);
    }
}

proof fn lemma_count_nonneg(s: Seq<char>, c: char)
    ensures
        text::count(s, c) >= 0,
    decreases s.len(),
{
    if s.len() > 0 {
        lemma_count_nonneg(s.drop_last(), c);
    }
}

/// A text has as many lines as line breaks, and one more if it does not end in one.
pub proof fn law_lines_count(s: Seq<char>)
    ensures
        text::lines(s).len() == text::count(s, '\n') + if s.len() > 0 && s.last() != '\n' {
            1int
        } else {
            0int
        },
    decreases s.len(),
{
    if s.len() > 0 {
        lemma_index_first(s, '\n', 0);
        match text::index(s, '\n') {
            Some(k) => {
                let rest = s.skip(k + 1);
                law_lines_count(rest);
                assert(s == (s.take(k).push('\n')) + rest);
                lemma_count_concat(s.take(k).push('\n'), rest, '\n');
                assert(s.take(k).push('\n').drop_last() == s.take(k));
                lemma_count_none(s.take(k), '\n');
                assert(text::lines(s) == seq![text::strip_return(s.take(k))] + text::lines(rest));
                if rest.len() > 0 {
                    assert(rest.last() == s.last());
                } else {
                    assert(k == s.len() - 1);
                }
            },
            None => {
                lemma_count_none(s, '\n');
                assert(text::lines(s) == seq![s]);
            },
        }
    }
}

proof fn lemma_spans_count(s: Seq<char>, rows: Seq<(int, int)>)
    ensures
        spans_so_far(s, rows).0.len() == text::count(s, '\n'),
        spans_so_far(s, rows).1 is Some <==> s.len() > 0 && s.last() != '\n',
    decreases s.len(),
{
    if s.len() > 0 {
        lemma_spans_count(s.drop_last(), rows.drop_last());
    }
}

/// A line map has one entry for each line of the text that it is for.
pub proof fn law_one_span_per_line(s: Seq<char>, rows: Seq<(int, int)>)
    ensures
        line_spans(s, rows).len() == text::lines(s).len(),
{
    lemma_spans_count(s, rows);
    law_lines_count(s);
}

proof fn lemma_row_step(s: Seq<char>, k: int)
    requires
        0 <= k < s.len(),
    ensures
        row_of(s, k + 1) == row_of(s, k) + if s[k] == '\n' {
            1int
        } else {
            0int
        },
{
    assert(s.take(k + 1).drop_last() == s.take(k));
    assert(s.take(k + 1).last() == s[k]);
}

proof fn lemma_kept_spans(s: Seq<char>, n: int)
    requires
        0 <= n <= s.len(),
    ensures
        spans_so_far(s.take(n), kept_rows(s, 0, n)).0 == Seq::new(row_of(s, n) as nat, |j: int| (line_number(j), line_number(j))),
        spans_so_far(s.take(n), kept_rows(s, 0, n)).1 == if n > 0 && s[n - 1] != '\n' {
            Some((row_of(s, n), row_of(s, n)))
        } else {
            None::<(int, int)>
        },
        row_of(s, n) >= 0,
    decreases n,
{
    lemma_count_nonneg(s.take(n), '\n');
    if n > 0 {
        lemma_kept_spans(s, n - 1);
        lemma_row_step(s, n - 1);
        let rows = kept_rows(s, 0, n);
        assert(rows.drop_last() == kept_rows(s, 0, n - 1));
        assert(s.take(n).drop_last() == s.take(n - 1));
        assert(s.take(n).last() == s[n - 1]);
        assert(spans_so_far(s.take(n), rows).0 == Seq::new(row_of(s, n) as nat, |j: int| (line_number(j), line_number(j))));
    } else {
        assert(s.take(0) == Seq::<char>::empty());
        assert(spans_so_far(s.take(n), kept_rows(s, 0, n)).0 == Seq::new(
            row_of(s, n) as nat,
            |j: int| (line_number(j), line_number(j)),
        ));
    }
}

/// A file that no edit is made to comes out as it is, each line from itself.
pub proof fn law_no_edits_no_change(s: Seq<char>)
    ensures
        spliced(s, Seq::empty(), 0) == s,
        line_spans(s, spliced_rows(s, Seq::empty(), 0)) == identity_spans(s),
{
    assert(s.subrange(0, s.len() as int) == s);
    lemma_kept_spans(s, s.len() as int);
    assert(s.take(s.len() as int) == s);
    law_lines_count(s);
    assert(line_spans(s, kept_rows(s, 0, s.len() as int)) == identity_spans(s));
}

/// Whether rows go forward: none starts before the one before it has ended.
pub open spec fn forward(rows: Seq<(int, int)>) -> bool {
    &&& forall|i: int| 0 <= i < rows.len() ==> (#[trigger] rows[i]).0 <= rows[i].1
    &&& forall|i: int, j: int| 0 <= i < j < rows.len() ==> (#[trigger] rows[i]).1 <= (#[trigger] rows[j]).0
}

/// Whether rows lie between two rows.
pub open spec fn between(rows: Seq<(int, int)>, lo: int, hi: int) -> bool {
    forall|i: int| 0 <= i < rows.len() ==> lo <= (#[trigger] rows[i]).0 && rows[i].1 <= hi
}

proof fn lemma_rows_grow(s: Seq<char>, a: int, b: int)
    requires
        0 <= a <= b <= s.len(),
    ensures
        row_of(s, a) <= row_of(s, b),
    decreases b - a,
{
    if a < b {
        lemma_rows_grow(s, a, b - 1);
        lemma_row_step(s, b - 1);
    }
}

proof fn lemma_forward_concat(a: Seq<(int, int)>, b: Seq<(int, int)>, lo: int, mid: int, hi: int)
    requires
        forward(a),
        forward(b),
        between(a, lo, mid),
        between(b, mid, hi),
        lo <= mid <= hi,
    ensures
        forward(a + b),
        between(a + b, lo, hi),
{
    let c = a + b;
    assert forall|i: int| 0 <= i < c.len() implies (#[trigger] c[i]).0 <= c[i].1 && lo <= c[i].0 && c[i].1 <= hi by {
        if i < a.len() {
            assert(c[i] == a[i]);
        } else {
            assert(c[i] == b[i - a.len()]);
        }
    }
    assert forall|i: int, j: int| 0 <= i < j < c.len() implies (#[trigger] c[i]).1 <= (#[trigger] c[j]).0 by {
        if j < a.len() {
            assert(c[i] == a[i] && c[j] == a[j]);
        } else if i < a.len() {
            assert(c[i] == a[i] && c[j] == b[j - a.len()]);
        } else {
            assert(c[i] == b[i - a.len()] && c[j] == b[j - a.len()]);
        }
    }
}

proof fn lemma_kept_forward(s: Seq<char>, a: int, b: int)
    requires
        0 <= a <= b <= s.len(),
    ensures
        forward(kept_rows(s, a, b)),
        between(kept_rows(s, a, b), row_of(s, a), row_of(s, b)),
        kept_rows(s, a, b).len() == b - a,
    decreases b - a,
{
    if a < b {
        lemma_kept_forward(s, a, b - 1);
        lemma_rows_grow(s, a, b - 1);
        lemma_row_step(s, b - 1);
        let r = row_of(s, b - 1);
        lemma_forward_concat(kept_rows(s, a, b - 1), seq![(r, r)], row_of(s, a), r, row_of(s, b));
        assert(kept_rows(s, a, b) == kept_rows(s, a, b - 1) + seq![(r, r)]);
    }
}

proof fn lemma_put_forward(text: Seq<char>, first: int, last: int)
    requires
        first <= last,
    ensures
        forward(put_rows(text, first, last)),
        between(put_rows(text, first, last), first, last),
        put_rows(text, first, last).len() == text.len(),
    decreases text.len(),
{
    if text.len() > 1 {
        lemma_put_forward(text.drop_last(), first, last);
        lemma_forward_concat(put_rows(text.drop_last(), first, last), seq![(last, last)], first, last, last);
        assert(put_rows(text, first, last) == put_rows(text.drop_last(), first, last) + seq![(last, last)]);
    }
}

proof fn lemma_spliced_forward(s: Seq<char>, es: Seq<EditView>, k: int)
    requires
        0 <= k <= s.len(),
    ensures
        forward(spliced_rows(s, es, k)),
        between(spliced_rows(s, es, k), row_of(s, k), row_of(s, s.len() as int)),
        spliced_rows(s, es, k).len() == spliced(s, es, k).len(),
    decreases es.len(),
{
    let n = s.len() as int;
    if es.len() == 0 {
        lemma_kept_forward(s, k, n);
    } else {
        match span_of(s, es[0], k) {
            Some((a, b)) => {
                lemma_spliced_forward(s, es.drop_first(), b);
                lemma_kept_forward(s, k, a);
                lemma_rows_grow(s, k, a);
                lemma_rows_grow(s, a, b);
                lemma_rows_grow(s, b, n);
                lemma_put_forward(es[0].text, row_of(s, a), row_of(s, b));
                let head = kept_rows(s, k, a) + put_rows(es[0].text, row_of(s, a), row_of(s, b));
                lemma_forward_concat(
                    kept_rows(s, k, a),
                    put_rows(es[0].text, row_of(s, a), row_of(s, b)),
                    row_of(s, k),
                    row_of(s, a),
                    row_of(s, b),
                );
                lemma_forward_concat(head, spliced_rows(s, es.drop_first(), b), row_of(s, k), row_of(s, b), row_of(s, n));
            },
            None => {
                lemma_spliced_forward(s, es.drop_first(), k);
            },
        }
    }
}

proof fn lemma_spans_forward(s: Seq<char>, rows: Seq<(int, int)>, hi: int)
    requires
        rows.len() == s.len(),
        forward(rows),
        between(rows, 0, hi),
    ensures
        forward(spans_so_far(s, rows).0),
        between(spans_so_far(s, rows).0, 1, line_number(hi)),
        s.len() > 0 ==> between(spans_so_far(s, rows).0, 1, line_number(rows.last().1)),
        match spans_so_far(s, rows).1 {
            Some((a, b)) => s.len() > 0 && 0 <= a <= b == rows.last().1 && between(spans_so_far(s, rows).0, 1, line_number(a)),
            None => true,
        },
    decreases s.len(),
{
    if s.len() > 0 {
        let front = rows.drop_last();
        assert forall|i: int, j: int| 0 <= i < j < front.len() implies (#[trigger] front[i]).1 <= (#[trigger] front[j]).0 by {
            assert(front[i] == rows[i] && front[j] == rows[j]);
        }
        lemma_spans_forward(s.drop_last(), front, hi);
        let (spans, open) = spans_so_far(s.drop_last(), front);
        let last = rows.last();
        assert(last == rows[rows.len() - 1]);
        if front.len() > 0 {
            assert(front.last() == rows[rows.len() - 2]);
            assert(front.last().1 <= last.0);
        }
        let first = match open {
            Some((a, _)) => a,
            None => last.0,
        };
        assert(between(spans, 1, line_number(first)));
        if s.last() == '\n' {
            let added = seq![(line_number(first), line_number(last.1))];
            lemma_forward_concat(spans, added, 1, line_number(first), line_number(last.1));
            assert(spans.push((line_number(first), line_number(last.1))) == spans + added);
        }
    }
}

/// The line map of an edited file goes forward and stays in the file: each line comes from
/// lines of the file, and none from before the lines that the one before it comes from.
pub proof fn law_line_maps_go_forward(s: Seq<char>, es: Seq<EditView>)
    ensures
        ({
            let map = line_spans(spliced(s, es, 0), spliced_rows(s, es, 0));
            forward(map) && between(map, 1, line_number(row_of(s, s.len() as int)))
        }),
{
    let n = s.len() as int;
    let out = spliced(s, es, 0);
    let rows = spliced_rows(s, es, 0);
    lemma_spliced_forward(s, es, 0);
    assert(s.take(0) == Seq::<char>::empty());
    lemma_rows_grow(s, 0, n);
    lemma_spans_forward(out, rows, row_of(s, n));
    let (spans, open) = spans_so_far(out, rows);
    match open {
        Some((a, b)) => {
            let added = seq![(line_number(a), line_number(b))];
            assert(rows.last() == rows[rows.len() - 1]);
            lemma_forward_concat(spans, added, 1, line_number(a), line_number(row_of(s, n)));
            assert(line_spans(out, rows) == spans + added);
        },
        None => {},
    }
}

/// Whether no two edits are at the same place.
pub open spec fn places_differ(es: Seq<EditView>) -> bool {
    forall|i: int, j: int|
        0 <= i < j < es.len() ==> (#[trigger] es[i]).start != (#[trigger] es[j]).start || es[i].end != es[j].end
}

/// Whether an edit can be made to a text by itself: it does not end before it starts, and it
/// starts and ends in the text, between characters.
pub open spec fn fits(s: Seq<char>, e: EditView) -> bool {
    span_of(s, e, 0) is Some
}

proof fn lemma_places_stay_apart(x: Seq<EditView>, y: Seq<EditView>)
    requires
        x.to_multiset() == y.to_multiset(),
        places_differ(x),
    ensures
        places_differ(y),
{
    broadcast use vstd::seq_lib::group_to_multiset_ensures;

    assert(x.no_duplicates());
    x.lemma_multiset_has_no_duplicates();
    y.lemma_multiset_has_no_duplicates_conv();
    assert forall|i: int, j: int| 0 <= i < j < y.len() implies (#[trigger] y[i]).start != (#[trigger] y[j]).start || y[i].end
        != y[j].end by {
        assert(y.contains(y[i]) && y.contains(y[j]));
        assert(x.to_multiset().count(y[i]) > 0 && x.to_multiset().count(y[j]) > 0);
        let p = choose|p: int| 0 <= p < x.len() && x[p] == y[i];
        let q = choose|q: int| 0 <= q < x.len() && x[q] == y[j];
        assert(p != q);
        if p < q {
            assert(x[p].start != x[q].start || x[p].end != x[q].end);
        } else {
            assert(x[q].start != x[p].start || x[q].end != x[p].end);
        }
    }
}

proof fn lemma_one_order(x: Seq<EditView>, y: Seq<EditView>)
    requires
        x.to_multiset() == y.to_multiset(),
        in_place(x),
        in_place(y),
        places_differ(x),
    ensures
        x == y,
    decreases x.len(),
{
    broadcast use vstd::seq_lib::group_to_multiset_ensures;

    vstd::seq_lib::to_multiset_len(x);
    vstd::seq_lib::to_multiset_len(y);
    if x.len() > 0 {
        let n = x.len() - 1;
        assert(y.contains(y[n]) && x.contains(x[n]));
        assert(x.to_multiset().count(y[n]) > 0 && y.to_multiset().count(x[n]) > 0);
        let i = choose|i: int| 0 <= i < x.len() && x[i] == y[n];
        let j = choose|j: int| 0 <= j < y.len() && y[j] == x[n];
        if i < n {
            assert(!sooner(x[n], x[i]));
            assert(sooner(x[i], x[n]));
            assert(j < n ==> !sooner(y[n], y[j]));
        }
        assert(x[n] == y[n]);
        assert(x.remove(n) == x.drop_last());
        assert(y.remove(n) == y.drop_last());
        lemma_one_order(x.drop_last(), y.drop_last());
        assert(x == x.drop_last().push(x[n]));
        assert(y == y.drop_last().push(y[n]));
    } else {
        assert(x == y);
    }
}

/// The order in which edits at different places are listed makes no difference.
pub proof fn law_order_of_edits_is_free(s: Seq<char>, x: Seq<EditView>, y: Seq<EditView>)
    requires
        x.to_multiset() == y.to_multiset(),
        places_differ(x),
    ensures
        by_place(x) == by_place(y),
        spliced(s, by_place(x), 0) == spliced(s, by_place(y), 0),
        spliced_rows(s, by_place(x), 0) == spliced_rows(s, by_place(y), 0),
{
    law_by_place_sorts(x);
    law_by_place_sorts(y);
    lemma_places_stay_apart(x, by_place(x));
    lemma_one_order(by_place(x), by_place(y));
}

proof fn lemma_placed_is_inserted(x: Seq<EditView>, e: EditView) -> (p: int)
    ensures
        0 <= p <= x.len(),
        placed(x, e) == x.take(p).push(e) + x.skip(p),
    decreases x.len(),
{
    if x.len() > 0 && sooner(e, x.last()) {
        let p = lemma_placed_is_inserted(x.drop_last(), e);
        assert(x.drop_last().take(p) == x.take(p));
        assert(placed(x, e) == x.take(p).push(e) + x.skip(p));
        p
    } else {
        assert(placed(x, e) == x.take(x.len() as int).push(e) + x.skip(x.len() as int));
        x.len() as int
    }
}

proof fn lemma_unfit_is_passed_over(s: Seq<char>, x: Seq<EditView>, e: EditView, p: int, k: int)
    requires
        !fits(s, e),
        0 <= p <= x.len(),
        0 <= k,
    ensures
        spliced(s, x.take(p).push(e) + x.skip(p), k) == spliced(s, x, k),
        spliced_rows(s, x.take(p).push(e) + x.skip(p), k) == spliced_rows(s, x, k),
    decreases x.len(),
{
    let y = x.take(p).push(e) + x.skip(p);
    if p == 0 {
        assert(y[0] == e);
        assert(y.drop_first() == x);
        assert(span_of(s, e, k) is None);
    } else {
        assert(y[0] == x[0]);
        let rest = x.drop_first();
        assert(y.drop_first() == rest.take(p - 1).push(e) + rest.skip(p - 1));
        match span_of(s, x[0], k) {
            Some((a, b)) => {
                lemma_unfit_is_passed_over(s, rest, e, p - 1, b);
            },
            None => {
                lemma_unfit_is_passed_over(s, rest, e, p - 1, k);
            },
        }
    }
}

/// An edit that does not fit the text makes no difference.
pub proof fn law_unfit_edits_are_passed_over(s: Seq<char>, es: Seq<EditView>, e: EditView)
    requires
        !fits(s, e),
    ensures
        spliced(s, by_place(es.push(e)), 0) == spliced(s, by_place(es), 0),
        spliced_rows(s, by_place(es.push(e)), 0) == spliced_rows(s, by_place(es), 0),
{
    assert(es.push(e).drop_last() == es);
    let p = lemma_placed_is_inserted(by_place(es), e);
    lemma_unfit_is_passed_over(s, by_place(es), e, p, 0);
}

/// Text under construction, with the lines of the source that it comes from.
struct Splice {
    out: String,
    map: Vec<(u32, u32)>,
    open: Option<(usize, usize)>,
}

impl Splice {
    /// Whether the text so far is the given one, from the given rows.
    spec fn holds(self, s: Seq<char>, rows: Seq<(int, int)>) -> bool {
        &&& rows.len() == s.len()
        &&& self.out@ == s
        &&& map_view(self.map@) == spans_so_far(s, rows).0
        &&& spans_so_far(s, rows).1 == (match self.open {
            Some((a, b)) => Some((a as int, b as int)),
            None => None,
        })
    }

    fn new() -> (r: Splice)
        ensures
            r.holds(Seq::empty(), Seq::empty()),
    {
        let r = Splice { out: text::copy(""), map: Vec::new(), open: None };
        proof {
            reveal_strlit("");
            assert(r.out@ == Seq::<char>::empty());
            assert(map_view(r.map@) == spans_so_far(Seq::empty(), Seq::empty()).0);
        }
        r
    }

    /// Appends a character that comes from the given rows.
    fn push(&mut self, c: char, first: usize, last: usize, Ghost(s): Ghost<Seq<char>>, Ghost(rows): Ghost<Seq<(int, int)>>)
        requires
            old(self).holds(s, rows),
        ensures
            final(self).holds(s.push(c), rows.push((first as int, last as int))),
    {
        assert(s.push(c).drop_last() == s);
        assert(rows.push((first as int, last as int)).drop_last() == rows);
        self.out.push(c);
        let start = match self.open {
            Some((a, _)) => a,
            None => first,
        };
        if c == '\n' {
            let ghost before = self.map@;
            self.map.push((number_of_row(start), number_of_row(last)));
            assert(map_view(self.map@) == map_view(before).push((line_number(start as int), line_number(last as int))));
            self.open = None;
        } else {
            self.open = Some((start, last));
        }
    }

    /// Appends the characters of the source from `a` up to `b`.
    fn keep(
        &mut self,
        source: &[char],
        a: usize,
        b: usize,
        row: usize,
        Ghost(s): Ghost<Seq<char>>,
        Ghost(rows): Ghost<Seq<(int, int)>>,
    ) -> (r: usize)
        requires
            a <= b <= source@.len(),
            row == row_of(source@, a as int),
            row <= a,
            old(self).holds(s, rows),
        ensures
            final(self).holds(s + source@.subrange(a as int, b as int), rows + kept_rows(source@, a as int, b as int)),
            r == row_of(source@, b as int),
            r <= b,
    {
        let mut here: usize = row;
        let mut k: usize = a;
        assert(s + source@.subrange(a as int, a as int) == s);
        assert(rows + kept_rows(source@, a as int, a as int) == rows);
        while k < b
            invariant
                a <= k <= b <= source@.len(),
                here == row_of(source@, k as int),
                here <= k,
                self.holds(s + source@.subrange(a as int, k as int), rows + kept_rows(source@, a as int, k as int)),
            decreases b - k,
        {
            let ghost text = source@.subrange(a as int, k as int);
            let ghost from = kept_rows(source@, a as int, k as int);
            proof {
                lemma_row_step(source@, k as int);
                assert((s + text).push(source@[k as int]) == s + source@.subrange(a as int, k + 1));
                assert((rows + from).push((here as int, here as int)) == rows + from.push((here as int, here as int)));
            }
            self.push(source[k], here, here, Ghost(s + text), Ghost(rows + from));
            if source[k] == '\n' {
                here += 1;
            }
            k += 1;
        }
        here
    }

    /// Appends a replacement for what starts on one row and ends on another.
    fn put(
        &mut self,
        text: &[char],
        first: usize,
        last: usize,
        Ghost(s): Ghost<Seq<char>>,
        Ghost(rows): Ghost<Seq<(int, int)>>,
    )
        requires
            old(self).holds(s, rows),
        ensures
            final(self).holds(s + text@, rows + put_rows(text@, first as int, last as int)),
    {
        let mut j: usize = 0;
        assert(s + text@.take(0) == s);
        assert(rows + put_rows(text@.take(0), first as int, last as int) == rows);
        while j < text.len()
            invariant
                0 <= j <= text@.len(),
                self.holds(s + text@.take(j as int), rows + put_rows(text@.take(j as int), first as int, last as int)),
            decreases text@.len() - j,
        {
            let ghost head = text@.take(j as int);
            let ghost from = put_rows(head, first as int, last as int);
            let a = if j == 0 {
                first
            } else {
                last
            };
            let b = if j == 0 && syntax::width_of(text[j]) == 1 {
                first
            } else {
                last
            };
            proof {
                syntax::lemma_take_step(text@, j as int);
                assert(put_rows(text@.take(j + 1), first as int, last as int) == from.push((a as int, b as int)));
                assert((s + head).push(text@[j as int]) == s + text@.take(j + 1));
                assert((rows + from).push((a as int, b as int)) == rows + from.push((a as int, b as int)));
            }
            self.push(text[j], a, b, Ghost(s + head), Ghost(rows + from));
            j += 1;
        }
        assert(text@.take(j as int) == text@);
    }
}

/// The number, counted from one, of a row counted from zero.
pub fn number_of_row(row: usize) -> (r: u32)
    ensures
        r == line_number(row as int),
{
    if row < u32::MAX as usize {
        row as u32 + 1
    } else {
        u32::MAX
    }
}

/// The line map of a text that nothing is taken out of.
pub fn identity_line_map(content: &[char]) -> (r: Vec<(u32, u32)>)
    ensures
        map_view(r@) == identity_spans(content@),
{
    let ls = text::lines_of(content);
    assert(text::texts(ls@).len() == ls@.len());
    let mut out: Vec<(u32, u32)> = Vec::new();
    let mut j: usize = 0;
    while j < ls.len()
        invariant
            0 <= j <= ls@.len(),
            map_view(out@) == Seq::new(j as nat, |j: int| (line_number(j), line_number(j))),
        decreases ls@.len() - j,
    {
        let n = number_of_row(j);
        let ghost before = out@;
        out.push((n, n));
        assert(map_view(out@) == map_view(before).push((n as int, n as int)));
        assert(map_view(out@) == Seq::new((j + 1) as nat, |j: int| (line_number(j), line_number(j))));
        j += 1;
    }
    out
}

/// The edits by their places.
fn sort_edits(edits: Vec<Edit>) -> (r: Vec<Edit>)
    ensures
        edits_view(r@) == by_place(edits_view(edits@)),
{
    let ghost ev = edits_view(edits@);
    let mut out: Vec<Edit> = Vec::new();
    let mut j: usize = 0;
    assert(edits_view(out@) == by_place(ev.take(0)));
    while j < edits.len()
        invariant
            0 <= j <= edits@.len(),
            ev == edits_view(edits@),
            edits_view(out@) == by_place(ev.take(j as int)),
        decreases edits@.len() - j,
    {
        let e = &edits[j];
        proof {
            syntax::lemma_take_step(ev, j as int);
            assert(ev[j as int] == e@);
        }
        place_edit(&mut out, Edit { start: e.start, end: e.end, text: text::copy(e.text.as_str()) });
        j += 1;
    }
    assert(ev.take(j as int) == ev);
    out
}

/// Puts an edit after those that it does not come before.
fn place_edit(v: &mut Vec<Edit>, e: Edit)
    ensures
        edits_view(final(v)@) == placed(edits_view(old(v)@), e@),
{
    let ghost vv = edits_view(v@);
    let mut p: usize = v.len();
    assert(vv.take(p as int) == vv);
    assert(placed(vv.take(p as int), e@) + vv.skip(p as int) == placed(vv, e@));
    while p > 0 && (e.start < v[p - 1].start || (e.start == v[p - 1].start && e.end < v[p - 1].end))
        invariant
            p <= v@.len(),
            v@ == old(v)@,
            vv == edits_view(v@),
            placed(vv.take(p as int), e@) + vv.skip(p as int) == placed(vv, e@),
        decreases p,
    {
        proof {
            let head = vv.take(p as int);
            assert(head.last() == v@[p - 1]@);
            assert(head.drop_last() == vv.take(p - 1));
            let inner = placed(vv.take(p - 1), e@);
            assert(inner.push(head.last()) + vv.skip(p as int) == inner + vv.skip(p - 1));
        }
        p -= 1;
    }
    proof {
        if p > 0 {
            assert(vv.take(p as int).last() == v@[p - 1]@);
        }
        assert(placed(vv.take(p as int), e@) == vv.take(p as int).push(e@));
    }
    v.insert(p, e);
    assert(edits_view(v@) == vv.take(p as int).push(e@) + vv.skip(p as int));
}

/// The source text with edits made by their places, and for each line of it the lines of the
/// source that it comes from.
pub fn apply_replacements(t: &SyntaxTree, edits: Vec<Edit>) -> (r: (String, Vec<(u32, u32)>))
    ensures
        r.0@ == spliced(t@.src, by_place(edits_view(edits@)), 0),
        map_view(r.1@) == line_spans(r.0@, spliced_rows(t@.src, by_place(edits_view(edits@)), 0)),
{
    let sorted = sort_edits(edits);
    make_edits(t, &sorted)
}

/// The source text with edits made in order, and for each line of it the lines of the source
/// that it comes from.
fn make_edits(t: &SyntaxTree, edits: &Vec<Edit>) -> (r: (String, Vec<(u32, u32)>))
    ensures
        r.0@ == spliced(t@.src, edits_view(edits@), 0),
        map_view(r.1@) == line_spans(r.0@, spliced_rows(t@.src, edits_view(edits@), 0)),
{
    let s = t.source();
    let ghost ev = edits_view(edits@);
    let ghost all = spliced(s@, ev, 0);
    let ghost all_rows = spliced_rows(s@, ev, 0);
    let ghost mut done: Seq<char> = Seq::empty();
    let ghost mut rows: Seq<(int, int)> = Seq::empty();
    let mut splice = Splice::new();
    let mut k: usize = 0;
    let mut row: usize = 0;
    let mut j: usize = 0;
    proof {
        assert(s@.take(0) == Seq::<char>::empty());
        assert(ev.skip(0) == ev);
        assert(done + all == all);
        assert(rows + all_rows == all_rows);
    }
    while j < edits.len()
        invariant
            0 <= j <= edits@.len(),
            s@ == t@.src,
            ev == edits_view(edits@),
            0 <= k <= s@.len(),
            row == row_of(s@, k as int),
            row <= k,
            splice.holds(done, rows),
            done + spliced(s@, ev.skip(j as int), k as int) == all,
            rows + spliced_rows(s@, ev.skip(j as int), k as int) == all_rows,
        decreases edits@.len() - j,
    {
        let e = &edits[j];
        proof {
            syntax::lemma_skip_step(ev, j as int);
            assert(ev[j as int] == e@);
        }
        match (t.char_of_byte(e.start), t.char_of_byte(e.end)) {
            (Some(a), Some(b)) => if k <= a && a <= b {
                let text = text::chars_of(e.text.as_str());
                let ghost x = s@.subrange(k as int, a as int);
                let ghost x_rows = kept_rows(s@, k as int, a as int);
                let from = splice.keep(s, k, a, row, Ghost(done), Ghost(rows));
                let to = row_after(s, a, b, from);
                splice.put(text.as_slice(), from, to, Ghost(done + x), Ghost(rows + x_rows));
                proof {
                    let rest = spliced(s@, ev.skip(j + 1), b as int);
                    let rest_rows = spliced_rows(s@, ev.skip(j + 1), b as int);
                    let y_rows = put_rows(e@.text, from as int, to as int);
                    assert(done + (x + e@.text + rest) == (done + x + e@.text) + rest);
                    assert(rows + (x_rows + y_rows + rest_rows) == (rows + x_rows + y_rows) + rest_rows);
                    done = done + x + e@.text;
                    rows = rows + x_rows + y_rows;
                }
                row = to;
                k = b;
            },
            _ => {},
        }
        j += 1;
    }
    let end = splice.keep(s, k, s.len(), row, Ghost(done), Ghost(rows));
    assert(ev.skip(j as int) == Seq::<EditView>::empty());
    let Splice { out, map, open } = splice;
    let mut line_map = map;
    match open {
        Some((a, b)) => {
            let ghost before = line_map@;
            line_map.push((number_of_row(a), number_of_row(b)));
            assert(map_view(line_map@) == map_view(before).push((line_number(a as int), line_number(b as int))));
        },
        None => {},
    }
    (out, line_map)
}

/// The row that position `b` is on, given that of position `a`.
fn row_after(s: &[char], a: usize, b: usize, row: usize) -> (r: usize)
    requires
        a <= b <= s@.len(),
        row == row_of(s@, a as int),
        row <= a,
    ensures
        r == row_of(s@, b as int),
        r <= b,
{
    let mut here: usize = row;
    let mut k: usize = a;
    while k < b
        invariant
            a <= k <= b <= s@.len(),
            here == row_of(s@, k as int),
            here <= k,
        decreases b - k,
    {
        proof {
            lemma_row_step(s@, k as int);
        }
        if s[k] == '\n' {
            here += 1;
        }
        k += 1;
    }
    here
}


} // verus!
