//! What holds of searching and cutting texts.
use vstd::prelude::*;
use crate::text;

verus! {

/// White space is what Unicode counts as such: the control characters from tab to carriage return,
/// the space, the next-line sign, the no-break space, and the wider and narrower spaces and
/// separators.
pub proof fn law_white_space_is_unicodes(c: char)
    ensures
        text::WHITE_SPACE@.contains(c) <==> {
            let n = c as int;
            9 <= n <= 13 || n == 32 || n == 0x85 || n == 0xa0 || n == 0x1680 || 0x2000 <= n <= 0x200a || n == 0x2028 || n == 0x2029 || n
                == 0x202f || n == 0x205f || n == 0x3000
        },
{
    reveal_strlit(
        "\t\n\u{b}\u{c}\r \u{85}\u{a0}\u{1680}\u{2000}\u{2001}\u{2002}\u{2003}\u{2004}\u{2005}\u{2006}\u{2007}\u{2008}\u{2009}\u{200a}\u{2028}\u{2029}\u{202f}\u{205f}\u{3000}",
    );
    let w = text::WHITE_SPACE@;
    assert(w.len() == 25);
    assert(w[0] == '\t' && w[1] == '\n' && w[2] == '\u{b}' && w[3] == '\u{c}' && w[4] == '\r' && w[5] == ' ' && w[6] == '\u{85}');
    assert(w[7] == '\u{a0}' && w[8] == '\u{1680}' && w[9] == '\u{2000}' && w[10] == '\u{2001}' && w[11] == '\u{2002}' && w[12]
        == '\u{2003}');
    assert(w[13] == '\u{2004}' && w[14] == '\u{2005}' && w[15] == '\u{2006}' && w[16] == '\u{2007}' && w[17] == '\u{2008}' && w[18]
        == '\u{2009}');
    assert(w[19] == '\u{200a}' && w[20] == '\u{2028}' && w[21] == '\u{2029}' && w[22] == '\u{202f}' && w[23] == '\u{205f}' && w[24]
        == '\u{3000}');
    if w.contains(c) {
        let k = choose|k: int| 0 <= k < w.len() && w[k] == c;
        assert(0 <= k < 25);
    }
}

proof fn lemma_index_from(s: Seq<char>, c: char, i: int)
    requires
        0 <= i <= s.len(),
    ensures
        match text::index_from(s, c, i) {
            Some(k) => i <= k < s.len() && s[k] == c && forall|j: int| i <= j < k ==> #[trigger] s[j] != c,
            None => forall|j: int| i <= j < s.len() ==> #[trigger] s[j] != c,
        },
    decreases s.len() - i,
{
    if i < s.len() && s[i] != c {
        lemma_index_from(s, c, i + 1);
    }
}

/// Looking for a character finds the first one, and none only if there is none.
pub proof fn law_index_is_first(s: Seq<char>, c: char)
    ensures
        match text::index(s, c) {
            Some(k) => 0 <= k < s.len() && s[k] == c && forall|j: int| 0 <= j < k ==> #[trigger] s[j] != c,
            None => !s.contains(c),
        },
{
    lemma_index_from(s, c, 0);
}

/// A character with none of its kind before it is the one that is found.
pub proof fn lemma_index_at(s: Seq<char>, c: char, k: int)
    requires
        0 <= k < s.len(),
        s[k] == c,
        !s.take(k).contains(c),
    ensures
        text::index(s, c) == Some(k),
{
    law_index_is_first(s, c);
    assert(s.contains(c));
    let j = text::index(s, c)->0;
    if j < k {
        assert(s.take(k)[j] == c);
    }
}

proof fn lemma_rindex_from(s: Seq<char>, c: char, i: int)
    requires
        i < s.len(),
    ensures
        match text::rindex_from(s, c, i) {
            Some(k) => 0 <= k <= i && s[k] == c && forall|j: int| k < j <= i ==> #[trigger] s[j] != c,
            None => forall|j: int| 0 <= j <= i ==> #[trigger] s[j] != c,
        },
    decreases i + 1,
{
    if i >= 0 && s[i] != c {
        lemma_rindex_from(s, c, i - 1);
    }
}

/// Looking for a character from the end finds the last one, and none only if there is none.
pub proof fn law_rindex_is_last(s: Seq<char>, c: char)
    ensures
        match text::rindex(s, c) {
            Some(k) => 0 <= k < s.len() && s[k] == c && forall|j: int| k < j < s.len() ==> #[trigger] s[j] != c,
            None => !s.contains(c),
        },
{
    lemma_rindex_from(s, c, s.len() - 1);
}

/// What stands before the first and behind the last of a character.
pub proof fn law_before_and_after(a: Seq<char>, c: char, b: Seq<char>)
    ensures
        !a.contains(c) ==> text::before_first(a.push(c) + b, c) == a,
        !b.contains(c) ==> text::after_last(a.push(c) + b, c) == b,
        !a.contains(c) ==> text::before_first(a, c) == a && text::after_last(a, c) == a,
{
    let s = a.push(c) + b;
    let k = a.len() as int;
    assert(s[k] == c);
    if !a.contains(c) {
        assert(s.take(k) == a);
        lemma_index_at(s, c, k);
        law_index_is_first(a, c);
        law_rindex_is_last(a, c);
    }
    if !b.contains(c) {
        law_rindex_is_last(s, c);
        assert(s.contains(c));
        let j = text::rindex(s, c)->0;
        if j > k {
            assert(b[j - k - 1] == c);
        }
        assert(s.skip(k + 1) == b);
    }
}

proof fn lemma_join_front(a: Seq<char>, rest: Seq<Seq<char>>, sep: Seq<char>)
    requires
        rest.len() > 0,
    ensures
        text::join(seq![a] + rest, sep) == a + sep + text::join(rest, sep),
    decreases rest.len(),
{
    let whole = seq![a] + rest;
    if rest.len() == 1 {
        assert(whole.drop_last() == seq![a]);
        assert(text::join(seq![a], sep) == a);
        assert(whole.last() == rest[0]);
    } else {
        assert(whole.drop_last() == seq![a] + rest.drop_last());
        lemma_join_front(a, rest.drop_last(), sep);
        assert(text::join(whole, sep) == a + sep + text::join(rest, sep));
    }
}

/// Splitting a text at a character and joining the parts with it gives the text back; no part
/// holds the character.
pub proof fn law_split_parts_join(s: Seq<char>, c: char)
    ensures
        text::join(text::split(s, c), seq![c]) == s,
        text::split(s, c).len() > 0,
        forall|k: int| 0 <= k < text::split(s, c).len() ==> !(#[trigger] text::split(s, c)[k]).contains(c),
    decreases s.len(),
{
    law_index_is_first(s, c);
    let parts = text::split(s, c);
    match text::index(s, c) {
        Some(k) => {
            let rest = s.skip(k + 1);
            law_split_parts_join(rest, c);
            lemma_join_front(s.take(k), text::split(rest, c), seq![c]);
            assert(s == s.take(k) + seq![c] + rest);
            assert forall|j: int| 0 <= j < parts.len() implies !(#[trigger] parts[j]).contains(c) by {
                if j > 0 {
                    assert(parts[j] == text::split(rest, c)[j - 1]);
                } else if parts[0].contains(c) {
                    let x = choose|x: int| 0 <= x < parts[0].len() && parts[0][x] == c;
                    assert(s[x] == c);
                }
            }
        },
        None => {
            assert(parts == seq![s]);
        },
    }
}

/// Whether all characters of a text are among others.
pub open spec fn made_of(s: Seq<char>, set: Seq<char>) -> bool {
    forall|k: int| 0 <= k < s.len() ==> set.contains(#[trigger] s[k])
}

proof fn lemma_trim_front(s: Seq<char>, set: Seq<char>)
    ensures
        ({
            let r = text::trim_front(s, set);
            &&& r.len() <= s.len()
            &&& s.skip(s.len() - r.len()) == r
            &&& made_of(s.take(s.len() - r.len()), set)
            &&& r.len() > 0 ==> !set.contains(r[0])
        }),
    decreases s.len(),
{
    let r = text::trim_front(s, set);
    if s.len() > 0 && set.contains(s[0]) {
        let t = s.drop_first();
        lemma_trim_front(t, set);
        let n = s.len() - r.len();
        assert(s.skip(n) == t.skip(n - 1));
        assert forall|k: int| 0 <= k < n implies set.contains(#[trigger] s.take(n)[k]) by {
            if k > 0 {
                assert(s.take(n)[k] == t.take(n - 1)[k - 1]);
            }
        }
    } else {
        assert(s.skip(0) == s);
    }
}

proof fn lemma_trim_back(s: Seq<char>, set: Seq<char>)
    ensures
        ({
            let r = text::trim_back(s, set);
            &&& r.len() <= s.len()
            &&& s.take(r.len() as int) == r
            &&& made_of(s.skip(r.len() as int), set)
            &&& r.len() > 0 ==> !set.contains(r.last())
        }),
    decreases s.len(),
{
    let r = text::trim_back(s, set);
    if s.len() > 0 && set.contains(s.last()) {
        let t = s.drop_last();
        lemma_trim_back(t, set);
        let n = r.len() as int;
        assert(s.take(n) == t.take(n));
        assert forall|k: int| 0 <= k < s.len() - n implies set.contains(#[trigger] s.skip(n)[k]) by {
            if k < t.len() - n {
                assert(s.skip(n)[k] == t.skip(n)[k]);
            }
        }
    } else {
        assert(s.take(s.len() as int) == s);
    }
}

/// Trimming takes characters of the set from both ends, no others, and leaves none of them at
/// either end.
pub proof fn law_trimming_takes_ends(s: Seq<char>, set: Seq<char>)
    ensures
        exists|a: Seq<char>, b: Seq<char>| s == #[trigger] (a + text::trim_set(s, set) + b) && made_of(a, set) && made_of(b, set),
        text::trim_set(s, set).len() > 0 ==> !set.contains(text::trim_set(s, set)[0]) && !set.contains(text::trim_set(s, set).last()),
{
    let f = text::trim_front(s, set);
    let r = text::trim_set(s, set);
    lemma_trim_front(s, set);
    lemma_trim_back(f, set);
    let a = s.take(s.len() - f.len());
    let b = f.skip(r.len() as int);
    assert(s == a + f);
    assert(f == r + b);
    assert(s == a + r + b);
    if r.len() > 0 {
        assert(r[0] == f[0]);
    }
}

/// Lower case and upper case change the letters from A to Z alone, each into its counterpart.
pub proof fn law_cases_change_letters(c: char)
    ensures
        65 <= c as int <= 90 ==> text::lower(c) as int == c as int + 32,
        !(65 <= c as int <= 90) ==> text::lower(c) == c,
        97 <= c as int <= 122 ==> text::upper(c) as int == c as int - 32,
        !(97 <= c as int <= 122) ==> text::upper(c) == c,
{
}

/// A bracket is closed where, counted from its own, as many brackets have been closed as opened for
/// the first time.
pub proof fn law_closing_balances(s: Seq<char>, open: char, close: char, i: int, depth: int)
    requires
        0 <= i <= s.len(),
        open != close,
    ensures
        match text::closing(s, open, close, i, depth) {
            Some(e) => i <= e < s.len() && s[e] == close && depth + text::count(s.subrange(i, e), open) - text::count(
                s.subrange(i, e),
                close,
            ) == 1,
            None => forall|e: int|
                i <= e < s.len() && #[trigger] s[e] == close ==> depth + text::count(s.subrange(i, e), open) - text::count(
                    s.subrange(i, e),
                    close,
                ) != 1,
        },
    decreases s.len() - i,
{
    if i < s.len() {
        let step: int = if s[i] == open {
            1
        } else if s[i] == close {
            -1
        } else {
            0
        };
        assert(s.subrange(i, i) == Seq::<char>::empty());
        if s[i] != close || depth != 1 {
            law_closing_balances(s, open, close, i + 1, depth + step);
            assert forall|e: int| i + 1 <= e < s.len() implies text::count(#[trigger] s.subrange(i, e), open) - text::count(
                s.subrange(i, e),
                close,
            ) == step + text::count(s.subrange(i + 1, e), open) - text::count(s.subrange(i + 1, e), close) by {
                assert(s.subrange(i, e) == seq![s[i]] + s.subrange(i + 1, e));
                lemma_count_front(s[i], s.subrange(i + 1, e), open);
                lemma_count_front(s[i], s.subrange(i + 1, e), close);
            }
        }
    }
}

proof fn lemma_count_front(x: char, s: Seq<char>, c: char)
    ensures
        text::count(seq![x] + s, c) == text::count(s, c) + if x == c {
            1int
        } else {
            0
        },
    decreases s.len(),
{
    let whole = seq![x] + s;
    if s.len() > 0 {
        lemma_count_front(x, s.drop_last(), c);
        assert(whole.drop_last() == seq![x] + s.drop_last());
        assert(whole.last() == s.last());
    } else {
        assert(whole.drop_last() == s);
        assert(whole.last() == x);
    }
}

/// A line ends at a line feed, which is no part of it, nor is a carriage return right before that.
pub proof fn law_lines_end_at_line_feeds(a: Seq<char>, rest: Seq<char>)
    requires
        !a.contains('\n'),
    ensures
        a.len() > 0 ==> text::lines(a) == seq![a],
        !(a.len() > 0 && a.last() == '\r') ==> text::lines(a.push('\n') + rest) == seq![a] + text::lines(rest),
        text::lines(a.push('\r').push('\n') + rest) == seq![a] + text::lines(rest),
{
    law_index_is_first(a, '\n');
    let s = a.push('\n') + rest;
    let k = a.len() as int;
    assert(s.take(k) == a);
    lemma_index_at(s, '\n', k);
    assert(s.skip(k + 1) == rest);
    let u = a.push('\r').push('\n') + rest;
    assert(u.take(k + 1) == a.push('\r'));
    assert(!a.push('\r').contains('\n')) by {
        if a.push('\r').contains('\n') {
            let x = choose|x: int| 0 <= x < a.len() + 1 && a.push('\r')[x] == '\n';
            assert(x < a.len());
            assert(a[x] == '\n');
        }
    }
    lemma_index_at(u, '\n', k + 1);
    assert(u.skip(k + 2) == rest);
    assert(a.push('\r').drop_last() == a);
}

/// What stands between double quotes is taken from the left, pair by pair.
pub proof fn law_quoted_texts_are_listed(a: Seq<char>, q: Seq<char>, b: Seq<char>)
    requires
        !a.contains('"'),
        !q.contains('"'),
    ensures
        text::quoted(a.push('"') + q.push('"') + b) == seq![q] + text::quoted(b),
        text::quoted(a) == Seq::<Seq<char>>::empty(),
{
    let s = a.push('"') + q.push('"') + b;
    let k = a.len() as int;
    assert(s.take(k) == a);
    lemma_index_at(s, '"', k);
    let after = s.skip(k + 1);
    assert(after == q.push('"') + b);
    assert(after.take(q.len() as int) == q);
    lemma_index_at(after, '"', q.len() as int);
    assert(after.skip((q.len() + 1) as int) == b);
    law_index_is_first(a, '"');
}

/// Trimming double quotes takes the quotes around a text.
pub proof fn lemma_quotes_are_taken(x: Seq<char>)
    requires
        x.len() > 0,
        x[0] != '"',
        x.last() != '"',
    ensures
        text::trim_set("\""@ + x + "\""@, "\""@) == x,
{
    reveal_strlit("\"");
    assert("\""@ == seq!['"']);
    assert(("\""@)[0] == '"');
    lemma_marks_are_taken(x, '"', "\""@);
}

/// Trimming takes a mark on either side of a text, where the text has none of the marks at its ends.
pub proof fn lemma_marks_are_taken(x: Seq<char>, q: char, set: Seq<char>)
    requires
        x.len() > 0,
        set.contains(q),
        !set.contains(x[0]),
        !set.contains(x.last()),
    ensures
        text::trim_set(seq![q] + x + seq![q], set) == x,
        text::trim_back(x + seq![q], set) == x,
        text::trim_set(x, set) == x,
{
    let s = seq![q] + x + seq![q];
    let f = x + seq![q];
    assert(s[0] == q);
    assert(s.drop_first() == f);
    assert(f[0] == x[0]);
    assert(text::trim_front(f, set) == f);
    assert(text::trim_front(s, set) == f);
    assert(f.last() == q);
    assert(f.drop_last() == x);
    assert(text::trim_back(x, set) == x);
}

/// A text splits at a character into what stands before the first and the parts of what stands
/// behind it.
pub proof fn law_splitting_takes_the_first_part(a: Seq<char>, c: char, b: Seq<char>)
    requires
        !a.contains(c),
    ensures
        text::split(a.push(c) + b, c) == seq![a] + text::split(b, c),
        text::split(a, c) == seq![a],
{
    let s = a.push(c) + b;
    let k = a.len() as int;
    assert(s.take(k) == a);
    assert(s[k] == c);
    lemma_index_at(s, c, k);
    assert(s.skip(k + 1) == b);
    law_index_is_first(a, c);
}

} // verus!
