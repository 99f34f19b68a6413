//! What holds of the nesting of brackets, and of which files are parsed.
use vstd::prelude::*;
use crate::guard;
use crate::guard::AstGuard;
use crate::paths;
use crate::text;

verus! {

/// How a byte changes the number of open brackets: `{`, `(` and `[` open one, `}`, `)` and `]`
/// close one.
pub open spec fn change(b: u8) -> int {
    if b == 0x7b || b == 0x28 || b == 0x5b {
        1
    } else if b == 0x7d || b == 0x29 || b == 0x5d {
        -1
    } else {
        0
    }
}

/// The opening brackets among the bytes from `a` up to `b`, less the closing ones.
pub open spec fn balance(s: Seq<u8>, a: int, b: int) -> int
    decreases b - a,
{
    if a >= b {
        0
    } else {
        balance(s, a, b - 1) + change(s[b - 1])
    }
}

/// Whether a text holds nothing that a comment or a literal could start with: no `"`, `'`, `` ` ``
/// or `#`, and no `/`.
pub open spec fn plain(s: Seq<u8>) -> bool {
    forall|j: int|
        0 <= j < s.len() ==> #[trigger] s[j] != 0x22 && s[j] != 0x27 && s[j] != 0x60 && s[j] != 0x23 && s[j] != 0x2f
}

/// The brackets among the first `k` bytes.
spec fn flags(s: Seq<u8>, k: int) -> Seq<bool>
    decreases k,
{
    if k <= 0 {
        Seq::empty()
    } else if change(s[k - 1]) == 1 {
        flags(s, k - 1).push(true)
    } else if change(s[k - 1]) == -1 {
        flags(s, k - 1).push(false)
    } else {
        flags(s, k - 1)
    }
}

proof fn lemma_flags_then(s: Seq<u8>, n: int, k: int)
    requires
        0 <= k <= n <= s.len(),
        plain(s.take(n)),
    ensures
        flags(s, k) + guard::brackets(s, k) == guard::brackets(s, 0),
    decreases k,
{
    if k > 0 {
        lemma_flags_then(s, n, k - 1);
        let b = s[k - 1];
        assert(s.take(n)[k - 1] == b);
        assert(guard::token_end(s, k - 1) is None);
        let rest = guard::brackets(s, k);
        let front = flags(s, k - 1);
        assert(front + (seq![true] + rest) == front.push(true) + rest);
        assert(front + (seq![false] + rest) == front.push(false) + rest);
    } else {
        assert(flags(s, 0) + guard::brackets(s, 0) == guard::brackets(s, 0));
    }
}

proof fn lemma_open(s: Seq<u8>, k: int)
    requires
        0 <= k <= s.len(),
    ensures
        forall|a: int| 0 <= a <= k ==> #[trigger] balance(s, a, k) <= guard::open_after(flags(s, k)),
        exists|a: int| 0 <= a <= k && #[trigger] balance(s, a, k) == guard::open_after(flags(s, k)),
    decreases k,
{
    if k > 0 {
        lemma_open(s, k - 1);
        let before = guard::open_after(flags(s, k - 1));
        let now = guard::open_after(flags(s, k));
        let d = change(s[k - 1]);
        if d == 1 {
            assert(flags(s, k).drop_last() == flags(s, k - 1));
        } else if d == -1 {
            assert(flags(s, k).drop_last() == flags(s, k - 1));
        }
        assert(balance(s, k - 1, k - 1) == 0);
        assert(before >= 0);
        assert forall|a: int| 0 <= a <= k implies #[trigger] balance(s, a, k) <= now by {
            if a < k {
                assert(balance(s, a, k) == balance(s, a, k - 1) + d);
            }
        }
        let a = choose|a: int| 0 <= a <= k - 1 && #[trigger] balance(s, a, k - 1) == before;
        if now == before + d {
            assert(balance(s, a, k) == now);
        } else {
            assert(balance(s, k, k) == now);
        }
    } else {
        assert(balance(s, 0, 0) == guard::open_after(flags(s, 0)));
    }
}

proof fn lemma_deep(s: Seq<u8>, k: int)
    requires
        0 <= k <= s.len(),
    ensures
        forall|a: int, b: int| 0 <= a <= b <= k ==> #[trigger] balance(s, a, b) <= guard::deepest(flags(s, k)),
        exists|a: int, b: int| 0 <= a <= b <= k && #[trigger] balance(s, a, b) == guard::deepest(flags(s, k)),
    decreases k,
{
    lemma_open(s, k);
    if k > 0 {
        lemma_deep(s, k - 1);
        lemma_open(s, k - 1);
        let before = guard::deepest(flags(s, k - 1));
        let now = guard::deepest(flags(s, k));
        let d = change(s[k - 1]);
        if d != 0 {
            assert(flags(s, k).drop_last() == flags(s, k - 1));
        }
        assert(balance(s, 0, 0) == 0);
        assert(before >= 0);
        assert forall|a: int, b: int| 0 <= a <= b <= k implies #[trigger] balance(s, a, b) <= now by {
            if b == k && d == 0 && a < k {
                assert(balance(s, a, k) == balance(s, a, k - 1));
            }
        }
        if now == before {
            let (a, b) = choose|a: int, b: int| 0 <= a <= b <= k - 1 && #[trigger] balance(s, a, b) == before;
            assert(balance(s, a, b) == now);
        } else {
            let a = choose|a: int| 0 <= a <= k && #[trigger] balance(s, a, k) == guard::open_after(flags(s, k));
            assert(balance(s, a, k) == now);
        }
    } else {
        assert(balance(s, 0, 0) == guard::deepest(flags(s, 0)));
    }
}

/// In a text without comments and literals the nesting depth is the greatest surplus of opening
/// over closing brackets that any stretch of the text has.
pub proof fn law_depth_is_the_greatest_surplus(s: Seq<u8>)
    requires
        plain(s),
    ensures
        forall|a: int, b: int| 0 <= a <= b <= s.len() ==> #[trigger] balance(s, a, b) <= guard::nesting(s),
        exists|a: int, b: int| 0 <= a <= b <= s.len() && #[trigger] balance(s, a, b) == guard::nesting(s),
{
    let n = s.len() as int;
    assert(s.take(n) == s);
    lemma_flags_then(s, n, n);
    assert(flags(s, n) + guard::brackets(s, n) == flags(s, n));
    lemma_deep(s, n);
}

proof fn lemma_balance_of_pairs(s: Seq<u8>, open: u8, close: u8, a: int, b: int)
    requires
        0 <= a <= b <= s.len(),
        change(open) == 1,
        change(close) == -1,
        forall|j: int| 0 <= j < s.len() ==> #[trigger] s[j] == if j % 2 == 0 {
            open
        } else {
            close
        },
    ensures
        balance(s, a, b) == (if b % 2 == 1 {
            1int
        } else {
            0
        }) - (if a % 2 == 1 {
            1int
        } else {
            0
        }),
    decreases b - a,
{
    if a < b {
        lemma_balance_of_pairs(s, open, close, a, b - 1);
    }
}

/// Pairs of brackets that follow one another are one deep, however many there are.
pub proof fn law_pairs_in_a_row_are_one_deep(s: Seq<u8>, open: u8, close: u8)
    requires
        s.len() >= 2,
        open == 0x7b && close == 0x7d || open == 0x28 && close == 0x29 || open == 0x5b && close == 0x5d,
        forall|j: int| 0 <= j < s.len() ==> #[trigger] s[j] == if j % 2 == 0 {
            open
        } else {
            close
        },
    ensures
        guard::nesting(s) == 1,
{
    law_depth_is_the_greatest_surplus(s);
    lemma_balance_of_pairs(s, open, close, 0, 1);
    let (a, b) = choose|a: int, b: int| 0 <= a <= b <= s.len() && #[trigger] balance(s, a, b) == guard::nesting(s);
    lemma_balance_of_pairs(s, open, close, a, b);
}

proof fn lemma_line_end_shift(a: Seq<u8>, x: Seq<u8>, i: int)
    requires
        0 <= i <= x.len(),
    ensures
        guard::line_end(a + x, a.len() + i) == a.len() + guard::line_end(x, i),
    decreases x.len() - i,
{
    if i < x.len() {
        assert((a + x)[a.len() + i] == x[i]);
        if x[i] != 10 {
            lemma_line_end_shift(a, x, i + 1);
        }
    }
}

proof fn lemma_comment_end_shift(a: Seq<u8>, x: Seq<u8>, i: int)
    requires
        0 <= i <= x.len(),
    ensures
        guard::comment_end(a + x, a.len() + i) == a.len() + guard::comment_end(x, i),
    decreases x.len() - i,
{
    if i + 1 < x.len() {
        assert((a + x)[a.len() + i] == x[i]);
        assert((a + x)[a.len() + i + 1] == x[i + 1]);
        if !(x[i] == 42 && x[i + 1] == 47) {
            lemma_comment_end_shift(a, x, i + 1);
        }
    }
}

proof fn lemma_quote_end_shift(a: Seq<u8>, x: Seq<u8>, q: u8, i: int)
    requires
        0 <= i,
    ensures
        guard::quote_end(a + x, q, a.len() + i) == a.len() + guard::quote_end(x, q, i),
    decreases x.len() + 1 - i,
{
    if i < x.len() {
        assert((a + x)[a.len() + i] == x[i]);
        if x[i] == 92 {
            lemma_quote_end_shift(a, x, q, i + 2);
        } else if x[i] != q {
            lemma_quote_end_shift(a, x, q, i + 1);
        }
    }
}

proof fn lemma_brackets_shift(a: Seq<u8>, x: Seq<u8>, i: int)
    requires
        0 <= i <= x.len(),
    ensures
        guard::brackets(a + x, a.len() + i) == guard::brackets(x, i),
    decreases x.len() - i,
{
    if i < x.len() {
        let s = a + x;
        let n = a.len() as int;
        assert(s[n + i] == x[i]);
        if i + 1 < x.len() {
            assert(s[n + i + 1] == x[i + 1]);
            lemma_comment_end_shift(a, x, i + 2);
            lemma_line_end_shift(a, x, i + 2);
        }
        lemma_line_end_shift(a, x, i + 1);
        lemma_quote_end_shift(a, x, x[i], i + 1);
        match guard::token_end(x, i) {
            Some(e) => {
                assert(guard::token_end(s, n + i) == Some(n + e));
                if i < e <= x.len() {
                    lemma_brackets_shift(a, x, e);
                }
            },
            None => {
                assert(guard::token_end(s, n + i) is None);
                lemma_brackets_shift(a, x, i + 1);
            },
        }
    }
}

proof fn lemma_flags_of_front(a: Seq<u8>, x: Seq<u8>, k: int)
    requires
        0 <= k <= a.len(),
    ensures
        flags(a + x, k) == flags(a, k),
    decreases k,
{
    if k > 0 {
        assert((a + x)[k - 1] == a[k - 1]);
        lemma_flags_of_front(a, x, k - 1);
    }
}

/// The brackets of a text behind a plain one.
proof fn lemma_behind_plain(a: Seq<u8>, x: Seq<u8>)
    requires
        plain(a),
    ensures
        guard::brackets(a + x, 0) == flags(a, a.len() as int) + guard::brackets(x, 0),
{
    let n = a.len() as int;
    assert((a + x).take(n) == a);
    lemma_flags_then(a + x, n, n);
    lemma_flags_of_front(a, x, n);
    lemma_brackets_shift(a, x, 0);
}

proof fn lemma_line_end_at(x: Seq<u8>, i: int, n: int)
    requires
        0 <= i <= n < x.len(),
        x[n] == 10,
        forall|j: int| i <= j < n ==> #[trigger] x[j] != 10,
    ensures
        guard::line_end(x, i) == n,
    decreases n - i,
{
    if i < n {
        assert(x[i] != 10);
        lemma_line_end_at(x, i + 1, n);
    }
}

proof fn lemma_comment_end_at(x: Seq<u8>, i: int, n: int)
    requires
        0 <= i <= n,
        n + 1 < x.len(),
        x[n] == 42 && x[n + 1] == 47,
        forall|j: int| i <= j < n ==> #[trigger] x[j] != 42,
    ensures
        guard::comment_end(x, i) == n + 2,
    decreases n - i,
{
    if i < n {
        assert(x[i] != 42);
        lemma_comment_end_at(x, i + 1, n);
    }
}

proof fn lemma_quote_end_at(x: Seq<u8>, q: u8, i: int, n: int)
    requires
        0 <= i <= n < x.len(),
        x[n] == q,
        q != 92,
        forall|j: int| i <= j < n ==> #[trigger] x[j] != q && x[j] != 92,
    ensures
        guard::quote_end(x, q, i) == n + 1,
    decreases n - i,
{
    if i < n {
        assert(x[i] != q && x[i] != 92);
        lemma_quote_end_at(x, q, i + 1, n);
    }
}

/// The brackets in a line comment, after `//` or after `#`, do not count.
pub proof fn law_line_comments_do_not_nest(a: Seq<u8>, c: Seq<u8>, b: Seq<u8>)
    requires
        plain(a),
        forall|j: int| 0 <= j < c.len() ==> #[trigger] c[j] != 0x0a,
    ensures
        guard::nesting(a + seq![0x2fu8, 0x2fu8] + c + seq![0x0au8] + b) == guard::nesting(a + seq![0x0au8] + b),
        guard::nesting(a + seq![0x23u8] + c + seq![0x0au8] + b) == guard::nesting(a + seq![0x0au8] + b),
{
    let nl = seq![0x0au8];
    let rest = nl + b;
    assert(a + nl + b == a + rest);
    lemma_behind_plain(a, rest);
    let x = seq![0x2fu8, 0x2fu8] + c + rest;
    assert(a + seq![0x2fu8, 0x2fu8] + c + nl + b == a + x);
    lemma_behind_plain(a, x);
    let n = (2 + c.len()) as int;
    assert(x[0] == 47 && x[1] == 47 && x[n] == 10);
    assert forall|j: int| 2 <= j < n implies #[trigger] x[j] != 10 by {
        assert(x[j] == c[j - 2]);
    }
    lemma_line_end_at(x, 2, n);
    let front = seq![0x2fu8, 0x2fu8] + c;
    assert(x == front + rest);
    lemma_brackets_shift(front, rest, 0);
    let y = seq![0x23u8] + c + rest;
    assert(a + seq![0x23u8] + c + nl + b == a + y);
    lemma_behind_plain(a, y);
    let m = (1 + c.len()) as int;
    assert(y[0] == 35 && y[m] == 10);
    assert forall|j: int| 1 <= j < m implies #[trigger] y[j] != 10 by {
        assert(y[j] == c[j - 1]);
    }
    lemma_line_end_at(y, 1, m);
    let head = seq![0x23u8] + c;
    assert(y == head + rest);
    lemma_brackets_shift(head, rest, 0);
}

/// The brackets in a block comment do not count.
pub proof fn law_block_comments_do_not_nest(a: Seq<u8>, c: Seq<u8>, b: Seq<u8>)
    requires
        plain(a),
        forall|j: int| 0 <= j < c.len() ==> #[trigger] c[j] != 0x2a,
    ensures
        guard::nesting(a + seq![0x2fu8, 0x2au8] + c + seq![0x2au8, 0x2fu8] + b) == guard::nesting(a + b),
{
    lemma_behind_plain(a, b);
    let front = seq![0x2fu8, 0x2au8] + c + seq![0x2au8, 0x2fu8];
    let x = front + b;
    assert(a + seq![0x2fu8, 0x2au8] + c + seq![0x2au8, 0x2fu8] + b == a + x);
    lemma_behind_plain(a, x);
    let n = (2 + c.len()) as int;
    assert(x[0] == 47 && x[1] == 42 && x[n] == 42 && x[n + 1] == 47);
    assert forall|j: int| 2 <= j < n implies #[trigger] x[j] != 42 by {
        assert(x[j] == c[j - 2]);
    }
    lemma_comment_end_at(x, 2, n);
    lemma_brackets_shift(front, b, 0);
}

/// The brackets in a literal do not count, be it in double quotes, in single quotes or in
/// backquotes.
pub proof fn law_literals_do_not_nest(a: Seq<u8>, q: u8, c: Seq<u8>, b: Seq<u8>)
    requires
        plain(a),
        q == 0x22 || q == 0x27 || q == 0x60,
        forall|j: int| 0 <= j < c.len() ==> #[trigger] c[j] != q && c[j] != 0x5c,
    ensures
        guard::nesting(a + seq![q] + c + seq![q] + b) == guard::nesting(a + b),
{
    lemma_behind_plain(a, b);
    let front = seq![q] + c + seq![q];
    let x = front + b;
    assert(a + seq![q] + c + seq![q] + b == a + x);
    lemma_behind_plain(a, x);
    let n = (1 + c.len()) as int;
    assert(x[0] == q && x[n] == q);
    assert forall|j: int| 1 <= j < n implies #[trigger] x[j] != q && x[j] != 92 by {
        assert(x[j] == c[j - 1]);
    }
    lemma_quote_end_at(x, q, 1, n);
    lemma_brackets_shift(front, b, 0);
}

/// A backslash takes the byte after it along: a quote behind it does not end a literal.
pub proof fn law_escaped_quotes_do_not_end_literals(a: Seq<u8>, q: u8, e: u8, b: Seq<u8>)
    requires
        plain(a),
        q == 0x22 || q == 0x27 || q == 0x60,
    ensures
        guard::nesting(a + seq![q, 0x5cu8, e, q] + b) == guard::nesting(a + b),
{
    lemma_behind_plain(a, b);
    let front = seq![q, 0x5cu8, e, q];
    let x = front + b;
    assert(a + front + b == a + x);
    lemma_behind_plain(a, x);
    assert(x[0] == q && x[1] == 92 && x[2] == e && x[3] == q);
    lemma_quote_end_at(x, q, 3, 3);
    assert(guard::quote_end(x, q, 1) == guard::quote_end(x, q, 3));
    lemma_brackets_shift(front, b, 0);
}

/// Whether a line ends among the 1025 bytes from `a` on.
pub open spec fn breaks_behind(s: Seq<u8>, a: int) -> bool {
    exists|j: int| a <= j <= a + 1024 && #[trigger] s[j] == 0x0a
}

/// A file that is within its budget, has no zero byte, a line break in every 1025 bytes, and
/// fewer than 65 opening brackets is parsed.
pub proof fn law_ordinary_files_are_parsed(size: u64, content: Seq<u8>, max_bytes: u64)
    requires
        size <= max_bytes,
        forall|j: int| 0 <= j < content.len() ==> #[trigger] content[j] != 0,
        forall|a: int| 0 <= a && a + 1024 < content.len() ==> #[trigger] breaks_behind(content, a),
        guard::brackets(content, 0).len() <= 64,
    ensures
        guard::admitted(size, content, max_bytes),
{
    guard::law_deepest_is_greatest(guard::brackets(content, 0));
    assert(!guard::has_long_line(content)) by {
        if guard::has_long_line(content) {
            let a = choose|a: int|
                0 <= a && a + AstGuard::MAX_LINE_LEN_BYTES < content.len() && #[trigger] guard::one_line(
                    content,
                    a,
                    a + AstGuard::MAX_LINE_LEN_BYTES + 1,
                );
            assert(breaks_behind(content, a));
            let j = choose|j: int| a <= j <= a + 1024 && #[trigger] content[j] == 0x0a;
            assert(content[j] != 10);
        }
    }
}

/// A file is refused if it is larger than its budget, if one of its first 4096 bytes is zero, if
/// it has 1025 bytes in a row without a line break, or if its brackets are nested 65 deep.
pub proof fn law_other_files_are_refused(size: u64, content: Seq<u8>, max_bytes: u64, j: int)
    requires
        ({
            ||| size > max_bytes
            ||| 0 <= j < content.len() && j < 4096 && content[j] == 0
            ||| 0 <= j && j + 1024 < content.len() && forall|k: int| j <= k <= j + 1024 ==> #[trigger] content[k] != 0x0a
            ||| plain(content) && exists|a: int, b: int| 0 <= a <= b <= content.len() && #[trigger] balance(content, a, b) >= 65
        }),
    ensures
        !guard::admitted(size, content, max_bytes),
{
    if 0 <= j && j + 1024 < content.len() && forall|k: int| j <= k <= j + 1024 ==> #[trigger] content[k] != 0x0a {
        assert(guard::one_line(content, j, j + AstGuard::MAX_LINE_LEN_BYTES + 1));
    }
    if plain(content) {
        law_depth_is_the_greatest_surplus(content);
    }
}

/// A zero byte behind the first 4096 bytes makes no file binary.
pub proof fn law_late_zero_bytes_are_no_matter(content: Seq<u8>)
    requires
        forall|j: int| 0 <= j < content.len() && j < 4096 ==> #[trigger] content[j] != 0,
    ensures
        !guard::binary(content),
{
}

/// A file may have 1.5 megabytes if its name, in any case of ASCII letters, is that of a schema
/// or of a generated stub, and 384 kilobytes if it is any other.
pub proof fn law_schemas_may_be_larger(path: Seq<char>, name: Seq<char>)
    requires
        paths::file_name(path) == Some(name),
    ensures
        ({
            let f = text::lowered(name);
            let large = text::ends_with(f, ".proto"@) || text::ends_with(f, ".pb.go"@) || text::ends_with(f, ".pb.ts"@)
                || text::ends_with(f, ".pb.rs"@) || text::ends_with(f, "_pb2.py"@) || text::ends_with(f, "outerclass.java"@)
                || f == "openapi.yaml"@ || f == "openapi.json"@ || f == "asyncapi.yaml"@ || f == "asyncapi.json"@;
            guard::budget(path) == if large {
                1_572_864u64
            } else {
                393_216u64
            }
        }),
{
}

} // verus!
