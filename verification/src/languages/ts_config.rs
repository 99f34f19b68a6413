//! Path aliases of TypeScript projects.
use vstd::prelude::*;
use crate::model;
use crate::text;

verus! {

/// Resolves the path aliases that a `tsconfig.json` declares.
#[derive(Debug, Clone)]
pub struct TsConfigResolver {
    /// The prefix of an alias and what stands in its place, such as `@/` and `src/`.
    pub path_mappings: Vec<(String, String)>,
}

impl Default for TsConfigResolver {
    fn default() -> (r: TsConfigResolver)
        ensures
            r.path_mappings@.len() == 0,
    {
        TsConfigResolver { path_mappings: Vec::new() }
    }
}

/// Where the string around position `i` ends. A backslash takes the character after it along.
pub open spec fn string_end(s: Seq<char>, i: int) -> int
    decreases s.len() + 1 - i,
{
    if i < 0 || i >= s.len() {
        s.len() as int
    } else if s[i] == '\\' {
        string_end(s, i + 2)
    } else if s[i] == '"' {
        i + 1
    } else {
        string_end(s, i + 1)
    }
}

/// Where the line around position `i` ends, its line feed left out.
pub open spec fn line_end(s: Seq<char>, i: int) -> int
    decreases s.len() - i,
{
    if i < 0 || i >= s.len() {
        s.len() as int
    } else if s[i] == '\n' {
        i
    } else {
        line_end(s, i + 1)
    }
}

/// Where the comment around position `i` ends: behind the next `*/`, or with the text.
pub open spec fn comment_end(s: Seq<char>, i: int) -> int
    decreases s.len() - i,
{
    if i < 0 || i + 1 >= s.len() {
        s.len() as int
    } else if s[i] == '*' && s[i + 1] == '/' {
        i + 2
    } else {
        comment_end(s, i + 1)
    }
}

/// Whether `//` stands at position `i`.
pub open spec fn opens_line(s: Seq<char>, i: int) -> bool {
    0 <= i && i + 1 < s.len() && s[i] == '/' && s[i + 1] == '/'
}

/// Whether `/*` stands at position `i`.
pub open spec fn opens_block(s: Seq<char>, i: int) -> bool {
    0 <= i && i + 1 < s.len() && s[i] == '/' && s[i + 1] == '*'
}

/// A JSON text from position `i` on, which lies in no string and in no comment, without its
/// comments. Strings stay whole.
pub open spec fn uncommented(s: Seq<char>, i: int) -> Seq<char>
    decreases s.len() - i,
{
    proof {
        lemma_string_end(s, i + 1);
        lemma_line_end(s, i + 2);
        lemma_comment_end(s, i + 2);
    }
    if i < 0 || i >= s.len() {
        Seq::empty()
    } else if s[i] == '"' {
        s.subrange(i, string_end(s, i + 1)) + uncommented(s, string_end(s, i + 1))
    } else if opens_line(s, i) {
        uncommented(s, line_end(s, i + 2))
    } else if opens_block(s, i) {
        uncommented(s, comment_end(s, i + 2))
    } else {
        seq![s[i]] + uncommented(s, i + 1)
    }
}

/// Whether position `p` lies outside of the strings of a text that is read from position `i`
/// on.
pub open spec fn outside_strings(s: Seq<char>, i: int, p: int) -> bool
    decreases s.len() - i,
{
    proof {
        lemma_string_end(s, i + 1);
    }
    if i < 0 || i >= s.len() {
        false
    } else if s[i] == '"' {
        outside_strings(s, string_end(s, i + 1), p)
    } else {
        p == i || outside_strings(s, i + 1, p)
    }
}

/// A string ends no earlier than its position, and within the text.
pub proof fn lemma_string_end(s: Seq<char>, i: int)
    ensures
        0 <= i <= s.len() ==> i <= string_end(s, i) <= s.len(),
    decreases s.len() + 1 - i,
{
    if 0 <= i < s.len() {
        if s[i] == '\\' {
            lemma_string_end(s, i + 2);
            assert(i + 2 > s.len() ==> string_end(s, i + 2) == s.len());
        } else if s[i] != '"' {
            lemma_string_end(s, i + 1);
        }
    }
}

/// A line ends no earlier than its position, and within the text.
pub proof fn lemma_line_end(s: Seq<char>, i: int)
    ensures
        0 <= i <= s.len() ==> i <= line_end(s, i) <= s.len(),
    decreases s.len() - i,
{
    if 0 <= i < s.len() && s[i] != '\n' {
        lemma_line_end(s, i + 1);
    }
}

/// A comment ends no earlier than its position, and within the text.
pub proof fn lemma_comment_end(s: Seq<char>, i: int)
    ensures
        0 <= i <= s.len() ==> i <= comment_end(s, i) <= s.len(),
    decreases s.len() - i,
{
    if 0 <= i && i + 1 < s.len() && !(s[i] == '*' && s[i + 1] == '/') {
        lemma_comment_end(s, i + 1);
    }
}

proof fn lemma_no_comment(s: Seq<char>, i: int)
    requires
        0 <= i <= s.len(),
        forall|p: int| #[trigger] outside_strings(s, i, p) ==> !opens_line(s, p) && !opens_block(s, p),
    ensures
        uncommented(s, i) == s.skip(i),
    decreases s.len() - i,
{
    if i < s.len() {
        if s[i] == '"' {
            let e = string_end(s, i + 1);
            lemma_string_end(s, i + 1);
            assert forall|p: int| #[trigger] outside_strings(s, e, p) implies !opens_line(s, p) && !opens_block(s, p) by {
                assert(outside_strings(s, i, p));
            }
            lemma_no_comment(s, e);
            assert(s.subrange(i, e) + s.skip(e) == s.skip(i));
        } else {
            assert(outside_strings(s, i, i));
            assert forall|p: int| #[trigger] outside_strings(s, i + 1, p) implies !opens_line(s, p) && !opens_block(s, p) by {
                assert(outside_strings(s, i, p));
            }
            lemma_no_comment(s, i + 1);
            assert(seq![s[i]] + s.skip(i + 1) == s.skip(i));
        }
    } else {
        assert(s.skip(i) == Seq::<char>::empty());
    }
}

/// Only comments are taken out: a text whose every `//` and `/*` lies inside a string stays as
/// it is.
pub proof fn law_no_comment_no_change(s: Seq<char>)
    requires
        forall|p: int| #[trigger] outside_strings(s, 0, p) ==> !opens_line(s, p) && !opens_block(s, p),
    ensures
        uncommented(s, 0) == s,
{
    lemma_no_comment(s, 0);
    assert(s.skip(0) == s);
}

/// Whether a base URL is the directory of the file itself.
pub open spec fn is_here(base: Seq<char>) -> bool {
    base == "."@ || base == "./"@ || base.len() == 0
}

/// What an alias stands for: the first target up to its `*`, under the base URL.
pub open spec fn target_prefix(target: Seq<char>, base: Seq<char>) -> Seq<char> {
    let bare = text::trim_back(target, "*"@);
    let inner = text::or(text::strip_prefix(bare, "./"@), bare);
    if is_here(base) {
        inner
    } else {
        text::trim_back(base, "/"@) + "/"@ + inner
    }
}

/// A list of pairs with the first of a key bound anew, or with a pair more.
pub open spec fn bound(s: Seq<(Seq<char>, Seq<char>)>, key: Seq<char>, value: Seq<char>) -> Seq<(Seq<char>, Seq<char>)>
    decreases s.len(),
{
    if s.len() == 0 {
        seq![(key, value)]
    } else if s[0].0 == key {
        seq![(key, value)] + s.drop_first()
    } else {
        seq![s[0]] + bound(s.drop_first(), key, value)
    }
}

/// Whether a list binds a key.
pub open spec fn binds(s: Seq<(Seq<char>, Seq<char>)>, key: Seq<char>) -> bool {
    exists|i: int| 0 <= i < s.len() && (#[trigger] s[i]).0 == key
}

/// Whether no key is bound twice.
pub open spec fn bound_once(s: Seq<(Seq<char>, Seq<char>)>) -> bool {
    forall|i: int, j: int| 0 <= i < j < s.len() ==> (#[trigger] s[i]).0 != (#[trigger] s[j]).0
}

/// A `paths` entry, as a mathematical value.
pub open spec fn entry_view(e: (String, Vec<String>)) -> (Seq<char>, Seq<Seq<char>>) {
    (e.0@, text::strings(e.1@))
}

/// The `paths` entries, as mathematical values.
pub open spec fn entries_view(v: Seq<(String, Vec<String>)>) -> Seq<(Seq<char>, Seq<Seq<char>>)> {
    v.map_values(|e: (String, Vec<String>)| entry_view(e))
}

/// The mappings that the `paths` entries declare. An entry without targets declares none.
pub open spec fn mappings(entries: Seq<(Seq<char>, Seq<Seq<char>>)>, base: Seq<char>) -> Seq<(Seq<char>, Seq<char>)>
    decreases entries.len(),
{
    if entries.len() == 0 {
        Seq::empty()
    } else {
        let rest = mappings(entries.drop_last(), base);
        let e = entries.last();
        if e.1.len() == 0 {
            rest
        } else {
            bound(rest, text::trim_back(e.0, "*"@), target_prefix(e.1[0], base))
        }
    }
}

proof fn lemma_bound(s: Seq<(Seq<char>, Seq<char>)>, key: Seq<char>, value: Seq<char>)
    requires
        bound_once(s),
    ensures
        bound_once(bound(s, key, value)),
        forall|k: Seq<char>| #[trigger] binds(bound(s, key, value), k) <==> k == key || binds(s, k),
    decreases s.len(),
{
    let r = bound(s, key, value);
    if s.len() == 0 {
        assert(r[0].0 == key);
    } else {
        let rest = s.drop_first();
        assert(forall|j: int| 0 <= j < rest.len() ==> #[trigger] rest[j] == s[j + 1]);
        assert(bound_once(rest));
        if s[0].0 == key {
            assert forall|i: int, j: int| 0 <= i < j < r.len() implies (#[trigger] r[i]).0 != (#[trigger] r[j]).0 by {
                assert(r[i].0 == s[i].0 && r[j].0 == s[j].0);
            }
            assert forall|k: Seq<char>| #[trigger] binds(r, k) <==> k == key || binds(s, k) by {
                if binds(r, k) {
                    let i = choose|i: int| 0 <= i < r.len() && (#[trigger] r[i]).0 == k;
                    assert(s[i].0 == k);
                }
                if binds(s, k) {
                    let i = choose|i: int| 0 <= i < s.len() && (#[trigger] s[i]).0 == k;
                    assert(r[i].0 == k);
                }
                assert(r[0].0 == key);
            }
        } else {
            lemma_bound(rest, key, value);
            let inner = bound(rest, key, value);
            assert(forall|j: int| 0 <= j < inner.len() ==> #[trigger] inner[j] == r[j + 1]);
            assert forall|i: int, j: int| 0 <= i < j < r.len() implies (#[trigger] r[i]).0 != (#[trigger] r[j]).0 by {
                assert(r[j] == inner[j - 1]);
                if i == 0 {
                    if inner[j - 1].0 == s[0].0 {
                        assert(binds(inner, s[0].0));
                        assert(binds(rest, s[0].0));
                        let m = choose|m: int| 0 <= m < rest.len() && (#[trigger] rest[m]).0 == s[0].0;
                        assert(s[m + 1].0 == s[0].0);
                    }
                } else {
                    assert(r[i] == inner[i - 1]);
                }
            }
            assert forall|k: Seq<char>| #[trigger] binds(r, k) <==> k == key || binds(s, k) by {
                if binds(r, k) {
                    let i = choose|i: int| 0 <= i < r.len() && (#[trigger] r[i]).0 == k;
                    if i == 0 {
                        assert(s[0].0 == k);
                    } else {
                        assert(inner[i - 1].0 == k);
                        assert(binds(inner, k));
                        if k != key {
                            let m = choose|m: int| 0 <= m < rest.len() && (#[trigger] rest[m]).0 == k;
                            assert(s[m + 1].0 == k);
                        }
                    }
                }
                if k == key || binds(s, k) {
                    if k != key && s[0].0 == k {
                        assert(r[0].0 == k);
                    } else {
                        if k != key {
                            let i = choose|i: int| 0 <= i < s.len() && (#[trigger] s[i]).0 == k;
                            assert(rest[i - 1].0 == k);
                        }
                        assert(binds(inner, k));
                        let m = choose|m: int| 0 <= m < inner.len() && (#[trigger] inner[m]).0 == k;
                        assert(r[m + 1].0 == k);
                    }
                }
            }
        }
    }
}

/// No prefix is mapped twice.
pub proof fn law_prefixes_are_mapped_once(entries: Seq<(Seq<char>, Seq<Seq<char>>)>, base: Seq<char>)
    ensures
        bound_once(mappings(entries, base)),
    decreases entries.len(),
{
    if entries.len() > 0 {
        let e = entries.last();
        law_prefixes_are_mapped_once(entries.drop_last(), base);
        if e.1.len() > 0 {
            lemma_bound(
                mappings(entries.drop_last(), base),
                text::trim_back(e.0, "*"@),
                target_prefix(e.1[0], base),
            );
        }
    }
}

/// What an import stands for: the first mapping whose prefix it starts with, applied.
pub open spec fn resolved(s: Seq<(Seq<char>, Seq<char>)>, import: Seq<char>) -> Option<Seq<char>>
    decreases s.len(),
{
    if s.len() == 0 {
        None
    } else if text::starts_with(import, s[0].0) {
        Some(s[0].1 + import.skip(s[0].0.len() as int))
    } else {
        resolved(s.drop_first(), import)
    }
}

/// An import is resolved exactly if it starts with a mapped prefix.
pub proof fn law_resolved_iff_prefixed(s: Seq<(Seq<char>, Seq<char>)>, import: Seq<char>)
    ensures
        resolved(s, import) is Some <==> exists|i: int| 0 <= i < s.len() && text::starts_with(import, (#[trigger] s[i]).0),
    decreases s.len(),
{
    if s.len() > 0 {
        let rest = s.drop_first();
        law_resolved_iff_prefixed(rest, import);
        if exists|i: int| 0 <= i < s.len() && text::starts_with(import, (#[trigger] s[i]).0) {
            let i = choose|i: int| 0 <= i < s.len() && text::starts_with(import, (#[trigger] s[i]).0);
            if i > 0 {
                assert(rest[i - 1] == s[i]);
            }
        }
        if exists|i: int| 0 <= i < rest.len() && text::starts_with(import, (#[trigger] rest[i]).0) {
            let i = choose|i: int| 0 <= i < rest.len() && text::starts_with(import, (#[trigger] rest[i]).0);
            assert(rest[i] == s[i + 1]);
        }
    }
}

impl TsConfigResolver {
    /// A resolver without mappings.
    pub fn new() -> (r: TsConfigResolver)
        ensures
            r.path_mappings@.len() == 0,
    {
        TsConfigResolver { path_mappings: Vec::new() }
    }

    /// The resolver for the `baseUrl` and the `paths` of a `tsconfig.json`. Without a base URL
    /// the directory of the file stands for it.
    pub fn from_paths(base_url: Option<&str>, paths: &Vec<(String, Vec<String>)>) -> (r: TsConfigResolver)
        ensures
            model::pairs_view(r.path_mappings@) == mappings(
                entries_view(paths@),
                match base_url {
                    Some(b) => b@,
                    None => "."@,
                },
            ),
            bound_once(model::pairs_view(r.path_mappings@)),
    {
        let base = match base_url {
            Some(b) => text::chars_of(b),
            None => text::chars_of("."),
        };
        let ghost ev = entries_view(paths@);
        let mut out: Vec<(String, String)> = Vec::new();
        let mut j: usize = 0;
        assert(ev.take(0) == Seq::<(Seq<char>, Seq<Seq<char>>)>::empty());
        while j < paths.len()
            invariant
                0 <= j <= paths@.len(),
                ev == entries_view(paths@),
                model::pairs_view(out@) == mappings(ev.take(j as int), base@),
            decreases paths@.len() - j,
        {
            proof {
                assert(ev.take(j + 1).drop_last() == ev.take(j as int));
                assert(ev.take(j + 1).last() == entry_view(paths@[j as int]));
                assert(text::strings(paths@[j as int].1@).len() == paths@[j as int].1@.len());
            }
            if paths[j].1.len() > 0 {
                assert(text::strings(paths@[j as int].1@)[0] == paths@[j as int].1@[0]@);
                let pattern = text::chars_of(paths[j].0.as_str());
                let prefix = text::string_of(text::trimmed_back(pattern.as_slice(), "*"));
                let target = text::chars_of(paths[j].1[0].as_str());
                let full = Self::full_target(target.as_slice(), base.as_slice());
                Self::bind(&mut out, prefix, full);
            }
            j += 1;
        }
        assert(ev.take(j as int) == ev);
        proof {
            law_prefixes_are_mapped_once(ev, base@);
        }
        TsConfigResolver { path_mappings: out }
    }

    /// What an alias stands for.
    fn full_target(target: &[char], base: &[char]) -> (r: String)
        ensures
            r@ == target_prefix(target@, base@),
    {
        let bare = text::trimmed_back(target, "*");
        let inner = match text::without_prefix(bare, "./") {
            Some(s) => s,
            None => bare,
        };
        if text::is(base, ".") || text::is(base, "./") || base.len() == 0 {
            text::string_of(inner)
        } else {
            text::joined3(text::trimmed_back(base, "/"), "/", inner)
        }
    }

    /// Binds a key.
    fn bind(v: &mut Vec<(String, String)>, key: String, value: String)
        ensures
            model::pairs_view(final(v)@) == bound(model::pairs_view(old(v)@), key@, value@),
    {
        let ghost start = model::pairs_view(v@);
        let kc = text::chars_of(key.as_str());
        let mut i: usize = 0;
        assert(start.skip(0) == start);
        assert(start.take(0) + bound(start, key@, value@) == bound(start, key@, value@));
        while i < v.len()
            invariant
                0 <= i <= v@.len(),
                kc@ == key@,
                start == model::pairs_view(v@),
                start == model::pairs_view(old(v)@),
                bound(start, key@, value@) == start.take(i as int) + bound(start.skip(i as int), key@, value@),
            decreases v@.len() - i,
        {
            assert(start[i as int] == (v@[i as int].0@, v@[i as int].1@));
            assert(start.skip(i as int).drop_first() == start.skip(i + 1));
            assert(start.skip(i as int)[0] == start[i as int]);
            if text::is(kc.as_slice(), v[i].0.as_str()) {
                assert(bound(start.skip(i as int), key@, value@) == seq![(key@, value@)] + start.skip(i + 1));
                v.set(i, (key, value));
                assert(model::pairs_view(v@) == start.take(i as int) + (seq![(key@, value@)] + start.skip(i + 1)));
                return;
            }
            assert(start.take(i as int) + (seq![start[i as int]] + bound(start.skip(i + 1), key@, value@)) == start.take(
                i + 1,
            ) + bound(start.skip(i + 1), key@, value@));
            i += 1;
        }
        assert(start.take(i as int) == start);
        assert(start.skip(i as int) == Seq::<(Seq<char>, Seq<char>)>::empty());
        model::push_pair(v, key, value);
        assert(start + seq![(key@, value@)] == start.push((key@, value@)));
    }

    /// A JSON text without its `//` and `/* */` comments.
    pub fn strip_json_comments(input: &str) -> (r: String)
        ensures
            r@ == uncommented(input@, 0),
    {
        let chars = text::chars_of(input);
        let s = chars.as_slice();
        let mut out: Vec<char> = Vec::new();
        let mut i: usize = 0;
        assert(out@ + uncommented(s@, 0) == uncommented(s@, 0));
        while i < s.len()
            invariant
                0 <= i <= s@.len(),
                out@ + uncommented(s@, i as int) == uncommented(s@, 0),
            decreases s@.len() - i,
        {
            let ghost before = out@;
            let slash = s[i] == '/' && i + 1 < s.len();
            if s[i] == '"' {
                let e = Self::end_of_string(s, i + 1);
                let ghost rest = uncommented(s@, e as int);
                Self::append(&mut out, s, i, e);
                assert(before + (s@.subrange(i as int, e as int) + rest) == out@ + rest);
                i = e;
            } else if slash && s[i + 1] == '/' {
                i = Self::end_of_line(s, i + 2);
            } else if slash && s[i + 1] == '*' {
                i = Self::end_of_comment(s, i + 2);
            } else {
                out.push(s[i]);
                assert(before + (seq![s@[i as int]] + uncommented(s@, i + 1)) == out@ + uncommented(s@, i + 1));
                i += 1;
            }
        }
        assert(out@ + Seq::<char>::empty() == out@);
        text::string_of(out.as_slice())
    }

    /// Adds the characters from `i` to `e`.
    fn append(out: &mut Vec<char>, s: &[char], i: usize, e: usize)
        requires
            i <= e <= s@.len(),
        ensures
            final(out)@ == old(out)@ + s@.subrange(i as int, e as int),
    {
        let mut j: usize = i;
        assert(out@ + s@.subrange(i as int, i as int) == out@);
        while j < e
            invariant
                i <= j <= e <= s@.len(),
                out@ == old(out)@ + s@.subrange(i as int, j as int),
            decreases e - j,
        {
            out.push(s[j]);
            assert(s@.subrange(i as int, j + 1) == s@.subrange(i as int, j as int).push(s@[j as int]));
            j += 1;
        }
    }

    /// Where the string around position `start` ends.
    fn end_of_string(s: &[char], start: usize) -> (r: usize)
        requires
            start <= s@.len(),
        ensures
            r == string_end(s@, start as int),
            start <= r <= s@.len(),
    {
        let mut i: usize = start;
        while i < s.len()
            invariant
                start <= i <= s@.len(),
                string_end(s@, start as int) == string_end(s@, i as int),
            decreases s@.len() - i,
        {
            if s[i] == '\\' {
                if s.len() - i >= 2 {
                    i += 2;
                } else {
                    assert(string_end(s@, i + 2) == s@.len());
                    return s.len();
                }
            } else if s[i] == '"' {
                return i + 1;
            } else {
                i += 1;
            }
        }
        s.len()
    }

    /// Where the line around position `start` ends.
    fn end_of_line(s: &[char], start: usize) -> (r: usize)
        requires
            start <= s@.len(),
        ensures
            r == line_end(s@, start as int),
            start <= r <= s@.len(),
    {
        let mut i: usize = start;
        while i < s.len() && s[i] != '\n'
            invariant
                start <= i <= s@.len(),
                line_end(s@, start as int) == line_end(s@, i as int),
            decreases s@.len() - i,
        {
            i += 1;
        }
        i
    }

    /// Where the comment around position `start` ends.
    fn end_of_comment(s: &[char], start: usize) -> (r: usize)
        requires
            start <= s@.len(),
        ensures
            r == comment_end(s@, start as int),
            start <= r <= s@.len(),
    {
        let mut i: usize = start;
        while s.len() - i >= 2
            invariant
                start <= i <= s@.len(),
                comment_end(s@, start as int) == comment_end(s@, i as int),
            decreases s@.len() - i,
        {
            if s[i] == '*' && s[i + 1] == '/' {
                return i + 2;
            }
            i += 1;
        }
        s.len()
    }

    /// What an import stands for, if it starts with a mapped prefix.
    pub fn resolve_alias(&self, import_target: &str) -> (r: Option<String>)
        ensures
            text::opt_string(r) == resolved(model::pairs_view(self.path_mappings@), import_target@),
    {
        let import = text::chars_of(import_target);
        let ghost pv = model::pairs_view(self.path_mappings@);
        let mut i: usize = 0;
        assert(pv.skip(0) == pv);
        while i < self.path_mappings.len()
            invariant
                0 <= i <= self.path_mappings@.len(),
                import@ == import_target@,
                pv == model::pairs_view(self.path_mappings@),
                resolved(pv, import@) == resolved(pv.skip(i as int), import@),
            decreases self.path_mappings@.len() - i,
        {
            proof {
                assert(pv[i as int] == (self.path_mappings@[i as int].0@, self.path_mappings@[i as int].1@));
                assert(pv.skip(i as int).drop_first() == pv.skip(i + 1));
            }
            let prefix = self.path_mappings[i].0.as_str();
            if text::begins(import.as_slice(), prefix) {
                let n = text::length(prefix);
                return Some(text::joined(self.path_mappings[i].1.as_str(), text::from(import.as_slice(), n)));
            }
            i += 1;
        }
        None
    }
}

} // verus!
