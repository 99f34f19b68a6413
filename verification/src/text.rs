//! Text as sequences of characters: searching, trimming, splitting and joining.
use vstd::prelude::*;
use vstd::slice::slice_subrange;

verus! {

/// `<str as PartialEq<str>>::eq`: two strings are equal exactly when they hold
/// the same characters in the same order.
pub assume_specification[ <str as PartialEq<str>>::eq ](a: &str, b: &str) -> (r: bool)
    ensures
        r == (a@ == b@),
;

/// `String::push`: appends the given character to the end of the string.
pub assume_specification[ String::push ](s: &mut String, c: char)
    ensures
        final(s)@ == old(s)@.push(c),
;

/// The characters with the Unicode `White_Space` property.
pub const WHITE_SPACE: &'static str = "\t\n\u{b}\u{c}\r \u{85}\u{a0}\u{1680}\u{2000}\u{2001}\u{2002}\u{2003}\u{2004}\u{2005}\u{2006}\u{2007}\u{2008}\u{2009}\u{200a}\u{2028}\u{2029}\u{202f}\u{205f}\u{3000}";

/// Whether two strings hold the same characters.
pub fn same(a: &str, b: &str) -> (r: bool)
    ensures
        r == (a@ == b@),
{
    a.eq(b)
}

/// The characters of a string.
pub fn chars_of(s: &str) -> (r: Vec<char>)
    ensures
        r@ == s@,
{
    let mut out: Vec<char> = Vec::new();
    for c in it: s.chars()
        invariant
            out@ == s@.take(it.index() as int),
            it.seq() == s@,
    {
        out.push(c);
    }
    out
}

/// Appends characters to a string.
pub fn push_chars(out: &mut String, s: &[char])
    ensures
        final(out)@ == old(out)@ + s@,
{
    let ghost before = out@;
    let mut i: usize = 0;
    while i < s.len()
        invariant
            0 <= i <= s.len(),
            out@ == before + s@.take(i as int),
        decreases s.len() - i,
    {
        out.push(s[i]);
        i += 1;
        assert(before + s@.take(i as int) == (before + s@.take(i - 1)).push(s@[i - 1]));
    }
    assert(s@.take(s@.len() as int) == s@);
}

/// The string of the given characters.
pub fn string_of(s: &[char]) -> (r: String)
    ensures
        r@ == s@,
{
    let mut out = String::new();
    push_chars(&mut out, s);
    assert(out@ == s@);
    out
}

/// A copy of a string.
pub fn copy(s: &str) -> (r: String)
    ensures
        r@ == s@,
{
    s.to_owned()
}

/// Appends characters to characters.
pub fn extend(out: &mut Vec<char>, s: &[char])
    ensures
        final(out)@ == old(out)@ + s@,
{
    let ghost before = out@;
    let mut i: usize = 0;
    while i < s.len()
        invariant
            0 <= i <= s.len(),
            out@ == before + s@.take(i as int),
        decreases s.len() - i,
    {
        out.push(s[i]);
        i += 1;
        assert(before + s@.take(i as int) == (before + s@.take(i - 1)).push(s@[i - 1]));
    }
    assert(s@.take(s@.len() as int) == s@);
}

/// The string of a literal followed by characters.
pub fn joined(a: &str, b: &[char]) -> (r: String)
    ensures
        r@ == a@ + b@,
{
    let mut out = copy(a);
    push_chars(&mut out, b);
    out
}

/// The string of two runs of characters with a literal between them.
pub fn joined3(a: &[char], b: &str, c: &[char]) -> (r: String)
    ensures
        r@ == a@ + b@ + c@,
{
    let mut out = string_of(a);
    out.append(b);
    push_chars(&mut out, c);
    out
}

/// Whether the characters are those of the literal.
pub fn is(s: &[char], lit: &str) -> (r: bool)
    ensures
        r == (s@ == lit@),
{
    let p = chars_of(lit);
    equal(s, p.as_slice())
}

/// Whether two runs of characters are equal.
pub fn equal(s: &[char], p: &[char]) -> (r: bool)
    ensures
        r == (s@ == p@),
{
    if s.len() != p.len() {
        return false;
    }
    let mut i: usize = 0;
    while i < s.len()
        invariant
            0 <= i <= s.len(),
            s.len() == p.len(),
            s@.take(i as int) == p@.take(i as int),
        decreases s.len() - i,
    {
        if s[i] != p[i] {
            return false;
        }
        i += 1;
        assert(s@.take(i as int) == s@.take(i - 1).push(s@[i - 1]));
        assert(p@.take(i as int) == p@.take(i - 1).push(p@[i - 1]));
    }
    assert(s@.take(i as int) == s@);
    assert(p@.take(i as int) == p@);
    true
}

/// Whether `p` stands in `s` at position `i`.
pub open spec fn at(s: Seq<char>, p: Seq<char>, i: int) -> bool {
    0 <= i && i + p.len() <= s.len() && s.subrange(i, i + p.len()) == p
}

/// The first position at or after `i` at which `p` stands in `s`.
pub open spec fn find_from(s: Seq<char>, p: Seq<char>, i: int) -> Option<int>
    decreases s.len() + 1 - i,
{
    if i < 0 || i + p.len() > s.len() {
        None
    } else if at(s, p, i) {
        Some(i)
    } else {
        find_from(s, p, i + 1)
    }
}

/// The first position at which `p` stands in `s`.
pub open spec fn find(s: Seq<char>, p: Seq<char>) -> Option<int> {
    find_from(s, p, 0)
}

/// The last position at or before `i` at which `p` stands in `s`.
pub open spec fn rfind_from(s: Seq<char>, p: Seq<char>, i: int) -> Option<int>
    decreases i + 1,
{
    if i < 0 {
        None
    } else if at(s, p, i) {
        Some(i)
    } else {
        rfind_from(s, p, i - 1)
    }
}

/// The last position at which `p` stands in `s`.
pub open spec fn rfind(s: Seq<char>, p: Seq<char>) -> Option<int> {
    rfind_from(s, p, s.len() - p.len())
}

/// Whether `p` stands somewhere in `s`.
pub open spec fn contains(s: Seq<char>, p: Seq<char>) -> bool {
    find(s, p) is Some
}

/// Whether `s` starts with `p`.
pub open spec fn starts_with(s: Seq<char>, p: Seq<char>) -> bool {
    at(s, p, 0)
}

/// Whether `s` ends with `p`.
pub open spec fn ends_with(s: Seq<char>, p: Seq<char>) -> bool {
    at(s, p, s.len() - p.len())
}

/// A search reports the least position at which the pattern stands, and fails
/// exactly when the pattern stands nowhere.
pub proof fn law_find_is_first(s: Seq<char>, p: Seq<char>)
    ensures
        match find(s, p) {
            Some(k) => at(s, p, k) && forall|j: int| 0 <= j < k ==> !#[trigger] at(s, p, j),
            None => forall|j: int| !#[trigger] at(s, p, j),
        },
{
    lemma_find_from(s, p, 0);
}

proof fn lemma_find_from(s: Seq<char>, p: Seq<char>, i: int)
    requires
        0 <= i,
    ensures
        match find_from(s, p, i) {
            Some(k) => i <= k && at(s, p, k) && forall|j: int| i <= j < k ==> !#[trigger] at(s, p, j),
            None => forall|j: int| i <= j ==> !#[trigger] at(s, p, j),
        },
    decreases s.len() + 1 - i,
{
    if i + p.len() <= s.len() && !at(s, p, i) {
        lemma_find_from(s, p, i + 1);
    }
}

/// Whether `p` stands in `s` at position `i`.
pub fn stands_at(s: &[char], p: &[char], i: usize) -> (r: bool)
    ensures
        r == at(s@, p@, i as int),
{
    if i > s.len() || p.len() > s.len() - i {
        return false;
    }
    let part = slice_subrange(s, i, i + p.len());
    equal(part, p)
}

/// The first position at or after `start` at which `p` stands in `s`.
pub fn find_at(s: &[char], p: &[char], start: usize) -> (r: Option<usize>)
    ensures
        opt_int(r) == find_from(s@, p@, start as int),
        r matches Some(k) ==> start <= k && k + p@.len() <= s@.len() <= usize::MAX,
{
    let mut i: usize = start;
    while i <= s.len() && p.len() <= s.len() - i
        invariant
            start <= i <= s.len() + 1 || i == start,
            find_from(s@, p@, start as int) == find_from(s@, p@, i as int),
        decreases s.len() + 1 - i,
    {
        if stands_at(s, p, i) {
            return Some(i);
        }
        if i == s.len() {
            assert(find_from(s@, p@, i + 1) is None);
            return None;
        }
        i += 1;
    }
    None
}

/// The first position at which `p` stands in `s`.
pub fn position(s: &[char], p: &[char]) -> (r: Option<usize>)
    ensures
        opt_int(r) == find(s@, p@),
        r matches Some(k) ==> k + p@.len() <= s@.len() <= usize::MAX,
{
    find_at(s, p, 0)
}

/// The first position at which the literal stands in `s`.
pub fn position_of(s: &[char], lit: &str) -> (r: Option<usize>)
    ensures
        opt_int(r) == find(s@, lit@),
        r matches Some(k) ==> k + lit@.len() <= s@.len() <= usize::MAX,
{
    let p = chars_of(lit);
    find_at(s, p.as_slice(), 0)
}

/// The last position at which `p` stands in `s`.
pub fn last_position(s: &[char], p: &[char]) -> (r: Option<usize>)
    ensures
        opt_int(r) == rfind(s@, p@),
        r matches Some(k) ==> k + p@.len() <= s@.len() <= usize::MAX,
{
    if p.len() > s.len() {
        return None;
    }
    let mut i: usize = s.len() - p.len();
    loop
        invariant
            i + p.len() <= s.len(),
            rfind(s@, p@) == rfind_from(s@, p@, i as int),
        decreases i,
    {
        if stands_at(s, p, i) {
            return Some(i);
        }
        if i == 0 {
            assert(rfind_from(s@, p@, -1) is None);
            return None;
        }
        i -= 1;
    }
}

/// Whether `p` stands somewhere in `s`.
pub fn has(s: &[char], p: &[char]) -> (r: bool)
    ensures
        r == contains(s@, p@),
{
    position(s, p).is_some()
}

/// Whether the literal stands somewhere in `s`.
pub fn has_lit(s: &[char], lit: &str) -> (r: bool)
    ensures
        r == contains(s@, lit@),
{
    position_of(s, lit).is_some()
}

/// Whether `s` begins with the literal.
pub fn begins(s: &[char], lit: &str) -> (r: bool)
    ensures
        r == starts_with(s@, lit@),
        r ==> lit@.len() <= s@.len(),
{
    let p = chars_of(lit);
    stands_at(s, p.as_slice(), 0)
}

/// Whether `s` ends with the literal.
pub fn ends(s: &[char], lit: &str) -> (r: bool)
    ensures
        r == ends_with(s@, lit@),
        r ==> lit@.len() <= s@.len(),
{
    let p = chars_of(lit);
    if p.len() > s.len() {
        return false;
    }
    stands_at(s, p.as_slice(), s.len() - p.len())
}

/// The number of characters of a literal.
pub fn length(lit: &str) -> (r: usize)
    ensures
        r == lit@.len(),
{
    chars_of(lit).len()
}

/// An optional index as a mathematical integer.
pub open spec fn opt_int(o: Option<usize>) -> Option<int> {
    match o {
        Some(k) => Some(k as int),
        None => None,
    }
}

/// An optional run of characters as a sequence.
pub open spec fn opt_text(o: Option<&[char]>) -> Option<Seq<char>> {
    match o {
        Some(s) => Some(s@),
        None => None,
    }
}

/// An optional string as a sequence.
pub open spec fn opt_string(o: Option<String>) -> Option<Seq<char>> {
    match o {
        Some(s) => Some(s@),
        None => None,
    }
}

/// The text, or another where there is none.
pub open spec fn or(o: Option<Seq<char>>, other: Seq<char>) -> Seq<char> {
    match o {
        Some(s) => s,
        None => other,
    }
}

/// The text as a string, or the literal where there is none.
pub fn string_or(o: Option<&[char]>, lit: &str) -> (r: String)
    ensures
        r@ == or(opt_text(o), lit@),
{
    match o {
        Some(s) => string_of(s),
        None => copy(lit),
    }
}

/// A list of strings as sequences.
pub open spec fn strings(v: Seq<String>) -> Seq<Seq<char>> {
    v.map_values(|s: String| s@)
}

/// A list of runs of characters as sequences.
pub open spec fn texts(v: Seq<&[char]>) -> Seq<Seq<char>> {
    v.map_values(|s: &[char]| s@)
}

/// The text without the leading characters that are in `set`.
pub open spec fn trim_front(s: Seq<char>, set: Seq<char>) -> Seq<char>
    decreases s.len(),
{
    if s.len() > 0 && set.contains(s[0]) {
        trim_front(s.drop_first(), set)
    } else {
        s
    }
}

/// The text without the trailing characters that are in `set`.
pub open spec fn trim_back(s: Seq<char>, set: Seq<char>) -> Seq<char>
    decreases s.len(),
{
    if s.len() > 0 && set.contains(s.last()) {
        trim_back(s.drop_last(), set)
    } else {
        s
    }
}

/// The text without the characters of `set` at either end.
pub open spec fn trim_set(s: Seq<char>, set: Seq<char>) -> Seq<char> {
    trim_back(trim_front(s, set), set)
}

/// The text without white space at either end.
pub open spec fn trim(s: Seq<char>) -> Seq<char> {
    trim_set(s, WHITE_SPACE@)
}

proof fn lemma_trim_front_pad(a: Seq<char>, s: Seq<char>, set: Seq<char>)
    requires
        forall|k: int| 0 <= k < a.len() ==> set.contains(#[trigger] a[k]),
    ensures
        trim_front(a + s, set) == trim_front(s, set),
    decreases a.len(),
{
    if a.len() > 0 {
        assert((a + s)[0] == a[0]);
        assert((a + s).drop_first() == a.drop_first() + s);
        lemma_trim_front_pad(a.drop_first(), s, set);
    } else {
        assert(a + s == s);
    }
}

proof fn lemma_trim_back_pad(s: Seq<char>, b: Seq<char>, set: Seq<char>)
    requires
        forall|k: int| 0 <= k < b.len() ==> set.contains(#[trigger] b[k]),
    ensures
        trim_back(s + b, set) == trim_back(s, set),
    decreases b.len(),
{
    if b.len() > 0 {
        assert((s + b).last() == b[b.len() - 1]);
        assert((s + b).drop_last() == s + b.drop_last());
        lemma_trim_back_pad(s, b.drop_last(), set);
    } else {
        assert(s + b == s);
    }
}

proof fn lemma_trim_set_pad(s: Seq<char>, b: Seq<char>, set: Seq<char>)
    requires
        forall|k: int| 0 <= k < b.len() ==> set.contains(#[trigger] b[k]),
    ensures
        trim_set(s + b, set) == trim_set(s, set),
    decreases s.len(),
{
    if s.len() == 0 {
        assert(s + b == b + s);
        lemma_trim_front_pad(b, s, set);
    } else if set.contains(s[0]) {
        assert((s + b)[0] == s[0]);
        assert((s + b).drop_first() == s.drop_first() + b);
        lemma_trim_set_pad(s.drop_first(), b, set);
    } else {
        assert((s + b)[0] == s[0]);
        lemma_trim_back_pad(s, b, set);
    }
}

/// White space around a text makes no difference to the text without white space at its ends.
pub proof fn law_trimming_ignores_white_space(a: Seq<char>, s: Seq<char>, b: Seq<char>)
    requires
        forall|k: int| 0 <= k < a.len() ==> WHITE_SPACE@.contains(#[trigger] a[k]),
        forall|k: int| 0 <= k < b.len() ==> WHITE_SPACE@.contains(#[trigger] b[k]),
    ensures
        trim(a + s + b) == trim(s),
{
    assert(a + s + b == a + (s + b));
    lemma_trim_front_pad(a, s + b, WHITE_SPACE@);
    lemma_trim_set_pad(s, b, WHITE_SPACE@);
}

/// Whether `c` is one of the characters.
pub fn is_one_of(c: char, set: &[char]) -> (r: bool)
    ensures
        r == set@.contains(c),
{
    let mut i: usize = 0;
    while i < set.len()
        invariant
            0 <= i <= set.len(),
            forall|j: int| 0 <= j < i ==> set@[j] != c,
        decreases set.len() - i,
    {
        if set[i] == c {
            return true;
        }
        i += 1;
    }
    false
}

/// Whether `c` is white space.
pub fn is_white(c: char) -> (r: bool)
    ensures
        r == WHITE_SPACE@.contains(c),
{
    let set = chars_of(WHITE_SPACE);
    is_one_of(c, set.as_slice())
}

/// The text without the leading characters that are in the literal.
pub fn trimmed_front<'a>(s: &'a [char], lit: &str) -> (r: &'a [char])
    ensures
        r@ == trim_front(s@, lit@),
        r@.len() <= s@.len(),
{
    let set = chars_of(lit);
    let mut i: usize = 0;
    assert(s@.skip(0) == s@);
    while i < s.len() && is_one_of(s[i], set.as_slice())
        invariant
            0 <= i <= s.len(),
            set@ == lit@,
            trim_front(s@, lit@) == trim_front(s@.skip(i as int), lit@),
        decreases s.len() - i,
    {
        assert(s@.skip(i as int).drop_first() == s@.skip(i + 1));
        i += 1;
    }
    assert(s@.skip(i as int) == s@.subrange(i as int, s@.len() as int));
    slice_subrange(s, i, s.len())
}

/// The text without the trailing characters that are in the literal.
pub fn trimmed_back<'a>(s: &'a [char], lit: &str) -> (r: &'a [char])
    ensures
        r@ == trim_back(s@, lit@),
        r@.len() <= s@.len(),
{
    let set = chars_of(lit);
    let mut i: usize = s.len();
    assert(s@.take(s@.len() as int) == s@);
    while i > 0 && is_one_of(s[i - 1], set.as_slice())
        invariant
            0 <= i <= s.len(),
            set@ == lit@,
            trim_back(s@, lit@) == trim_back(s@.take(i as int), lit@),
        decreases i,
    {
        assert(s@.take(i as int).drop_last() == s@.take(i - 1));
        i -= 1;
    }
    assert(s@.take(i as int) == s@.subrange(0, i as int));
    slice_subrange(s, 0, i)
}

/// The text without the characters of the literal at either end.
pub fn trimmed_of<'a>(s: &'a [char], lit: &str) -> (r: &'a [char])
    ensures
        r@ == trim_set(s@, lit@),
        r@.len() <= s@.len(),
{
    trimmed_back(trimmed_front(s, lit), lit)
}

/// The text without white space at either end.
pub fn trimmed<'a>(s: &'a [char]) -> (r: &'a [char])
    ensures
        r@ == trim(s@),
        r@.len() <= s@.len(),
{
    trimmed_of(s, WHITE_SPACE)
}

/// The text after every leading repetition of a prefix.
pub open spec fn strip_repeated(s: Seq<char>, p: Seq<char>) -> Seq<char>
    decreases s.len(),
{
    if p.len() > 0 && starts_with(s, p) {
        strip_repeated(s.skip(p.len() as int), p)
    } else {
        s
    }
}

/// The text after every leading repetition of the literal.
pub fn stripped_repeated<'a>(s: &'a [char], lit: &str) -> (r: &'a [char])
    ensures
        r@ == strip_repeated(s@, lit@),
{
    let p = chars_of(lit);
    let mut i: usize = 0;
    let mut rest: &'a [char] = s;
    while p.len() > 0 && stands_at(rest, p.as_slice(), 0)
        invariant
            p@ == lit@,
            strip_repeated(s@, lit@) == strip_repeated(rest@, lit@),
        decreases rest@.len(),
    {
        assert(rest@.skip(p@.len() as int) == rest@.subrange(p@.len() as int, rest@.len() as int));
        rest = slice_subrange(rest, p.len(), rest.len());
    }
    rest
}

/// The text with a suffix removed, if it ends with it.
pub open spec fn strip_suffix(s: Seq<char>, p: Seq<char>) -> Option<Seq<char>> {
    if ends_with(s, p) {
        Some(s.take(s.len() - p.len()))
    } else {
        None
    }
}

/// The text with a prefix removed, if it begins with it.
pub open spec fn strip_prefix(s: Seq<char>, p: Seq<char>) -> Option<Seq<char>> {
    if starts_with(s, p) {
        Some(s.skip(p.len() as int))
    } else {
        None
    }
}

/// The text with the literal removed from its end, if it ends with it.
pub fn without_suffix<'a>(s: &'a [char], lit: &str) -> (r: Option<&'a [char]>)
    ensures
        opt_text(r) == strip_suffix(s@, lit@),
{
    if ends(s, lit) {
        let n: usize = s.len() - length(lit);
        assert(s@.take(n as int) == s@.subrange(0, n as int));
        Some(slice_subrange(s, 0, n))
    } else {
        None
    }
}

/// The text with the literal removed from its front, if it begins with it.
pub fn without_prefix<'a>(s: &'a [char], lit: &str) -> (r: Option<&'a [char]>)
    ensures
        opt_text(r) == strip_prefix(s@, lit@),
{
    if begins(s, lit) {
        let n: usize = length(lit);
        assert(s@.skip(n as int) == s@.subrange(n as int, s@.len() as int));
        Some(slice_subrange(s, n, s.len()))
    } else {
        None
    }
}

/// The first position at or after `i` of the character `c`.
pub open spec fn index_from(s: Seq<char>, c: char, i: int) -> Option<int>
    decreases s.len() - i,
{
    if i < 0 || i >= s.len() {
        None
    } else if s[i] == c {
        Some(i)
    } else {
        index_from(s, c, i + 1)
    }
}

/// The first position of the character `c`.
pub open spec fn index(s: Seq<char>, c: char) -> Option<int> {
    index_from(s, c, 0)
}

/// The last position at or before `i` of the character `c`.
pub open spec fn rindex_from(s: Seq<char>, c: char, i: int) -> Option<int>
    decreases i + 1,
{
    if i < 0 || i >= s.len() {
        None
    } else if s[i] == c {
        Some(i)
    } else {
        rindex_from(s, c, i - 1)
    }
}

/// The last position of the character `c`.
pub open spec fn rindex(s: Seq<char>, c: char) -> Option<int> {
    rindex_from(s, c, s.len() - 1)
}

/// The first position at or after `start` of the character `c`.
pub fn char_position_from(s: &[char], c: char, start: usize) -> (r: Option<usize>)
    ensures
        opt_int(r) == index_from(s@, c, start as int),
        r matches Some(k) ==> start <= k < s@.len() <= usize::MAX && s@[k as int] == c,
{
    let mut i: usize = start;
    while i < s.len()
        invariant
            start <= i,
            index_from(s@, c, start as int) == index_from(s@, c, i as int),
        decreases s.len() - i,
    {
        if s[i] == c {
            return Some(i);
        }
        i += 1;
    }
    None
}

/// The first position of the character `c`.
pub fn char_position(s: &[char], c: char) -> (r: Option<usize>)
    ensures
        opt_int(r) == index(s@, c),
        r matches Some(k) ==> k < s@.len() <= usize::MAX && s@[k as int] == c,
{
    char_position_from(s, c, 0)
}

/// The last position of the character `c`.
pub fn last_char_position(s: &[char], c: char) -> (r: Option<usize>)
    ensures
        opt_int(r) == rindex(s@, c),
        r matches Some(k) ==> k < s@.len() <= usize::MAX,
{
    let mut i: usize = s.len();
    while i > 0
        invariant
            i <= s.len(),
            rindex(s@, c) == rindex_from(s@, c, i - 1),
        decreases i,
    {
        if s[i - 1] == c {
            return Some(i - 1);
        }
        i -= 1;
    }
    None
}

/// The text after the last occurrence of `c`, or the whole text.
pub open spec fn after_last(s: Seq<char>, c: char) -> Seq<char> {
    match rindex(s, c) {
        Some(k) => s.skip(k + 1),
        None => s,
    }
}

/// The text before the first occurrence of `c`, or the whole text.
pub open spec fn before_first(s: Seq<char>, c: char) -> Seq<char> {
    match index(s, c) {
        Some(k) => s.take(k),
        None => s,
    }
}

/// The text from position `i` on.
pub fn from<'a>(s: &'a [char], i: usize) -> (r: &'a [char])
    requires
        i <= s@.len(),
    ensures
        r@ == s@.skip(i as int),
{
    assert(s@.skip(i as int) == s@.subrange(i as int, s@.len() as int));
    slice_subrange(s, i, s.len())
}

/// The text up to position `i`.
pub fn until<'a>(s: &'a [char], i: usize) -> (r: &'a [char])
    requires
        i <= s@.len(),
    ensures
        r@ == s@.take(i as int),
{
    assert(s@.take(i as int) == s@.subrange(0, i as int));
    slice_subrange(s, 0, i)
}

/// The text after the last occurrence of `c`, or the whole text.
pub fn tail_after<'a>(s: &'a [char], c: char) -> (r: &'a [char])
    ensures
        r@ == after_last(s@, c),
{
    match last_char_position(s, c) {
        Some(k) => from(s, k + 1),
        None => s,
    }
}

/// The text before the first occurrence of `c`, or the whole text.
pub fn head_before<'a>(s: &'a [char], c: char) -> (r: &'a [char])
    ensures
        r@ == before_first(s@, c),
{
    match char_position(s, c) {
        Some(k) => until(s, k),
        None => s,
    }
}

/// The pieces of a text between the occurrences of `c`.
pub open spec fn split(s: Seq<char>, c: char) -> Seq<Seq<char>>
    decreases s.len(),
    via split_decreases
{
    match index(s, c) {
        Some(k) => seq![s.take(k)] + split(s.skip(k + 1), c),
        None => seq![s],
    }
}

#[via_fn]
proof fn split_decreases(s: Seq<char>, c: char) {
    lemma_index_range(s, c, 0);
}

proof fn lemma_index_range(s: Seq<char>, c: char, i: int)
    requires
        0 <= i,
    ensures
        index_from(s, c, i) matches Some(k) ==> i <= k < s.len() && s[k] == c,
    decreases s.len() - i,
{
    if i < s.len() && s[i] != c {
        lemma_index_range(s, c, i + 1);
    }
}

/// The pieces of a text between the occurrences of `c`.
pub fn pieces<'a>(s: &'a [char], c: char) -> (r: Vec<&'a [char]>)
    ensures
        texts(r@) == split(s@, c),
{
    let mut out: Vec<&'a [char]> = Vec::new();
    let mut rest: &'a [char] = s;
    assert(texts(out@) + split(rest@, c) == split(s@, c));
    loop
        invariant
            texts(out@) + split(rest@, c) == split(s@, c),
        decreases rest@.len(),
    {
        match char_position(rest, c) {
            Some(k) => {
                let head = until(rest, k);
                let ghost before = out@;
                out.push(head);
                let tail = from(rest, k + 1);
                assert(texts(out@) == texts(before).push(head@));
                assert(split(rest@, c) == seq![head@] + split(tail@, c));
                assert(texts(before) + split(rest@, c) == texts(out@) + split(tail@, c));
                rest = tail;
            },
            None => {
                let ghost before = out@;
                out.push(rest);
                assert(texts(out@) == texts(before) + seq![rest@]);
                return out;
            },
        }
    }
}

/// A line without the carriage return before its line feed.
pub open spec fn strip_return(s: Seq<char>) -> Seq<char> {
    if s.len() > 0 && s.last() == '\r' {
        s.drop_last()
    } else {
        s
    }
}

/// The lines of a text, without their line endings.
pub open spec fn lines(s: Seq<char>) -> Seq<Seq<char>>
    decreases s.len(),
    via lines_decreases
{
    if s.len() == 0 {
        Seq::empty()
    } else {
        match index(s, '\n') {
            Some(k) => seq![strip_return(s.take(k))] + lines(s.skip(k + 1)),
            None => seq![s],
        }
    }
}

#[via_fn]
proof fn lines_decreases(s: Seq<char>) {
    lemma_index_range(s, '\n', 0);
}

/// The lines of a text, without their line endings.
pub fn lines_of<'a>(s: &'a [char]) -> (r: Vec<&'a [char]>)
    ensures
        texts(r@) == lines(s@),
{
    let mut out: Vec<&'a [char]> = Vec::new();
    let mut rest: &'a [char] = s;
    assert(texts(out@) + lines(rest@) == lines(s@));
    while rest.len() > 0
        invariant
            texts(out@) + lines(rest@) == lines(s@),
        decreases rest@.len(),
    {
        match char_position(rest, '\n') {
            Some(k) => {
                let head = until(rest, k);
                let line = if k > 0 && head[k - 1] == '\r' {
                    until(head, k - 1)
                } else {
                    head
                };
                assert(line@ == strip_return(head@));
                let ghost before = out@;
                out.push(line);
                let tail = from(rest, k + 1);
                assert(texts(out@) == texts(before).push(line@));
                assert(lines(rest@) == seq![line@] + lines(tail@));
                assert(texts(before) + lines(rest@) == texts(out@) + lines(tail@));
                rest = tail;
            },
            None => {
                let ghost before = out@;
                out.push(rest);
                assert(texts(out@) == texts(before) + seq![rest@]);
                return out;
            },
        }
    }
    assert(texts(out@) + lines(rest@) == texts(out@));
    out
}

/// The first line of a text, if it has one.
pub open spec fn first_line(s: Seq<char>) -> Option<Seq<char>> {
    if s.len() == 0 {
        None
    } else {
        match index(s, '\n') {
            Some(k) => Some(strip_return(s.take(k))),
            None => Some(s),
        }
    }
}

/// The first line of a text, if it has one.
pub fn head_line<'a>(s: &'a [char]) -> (r: Option<&'a [char]>)
    ensures
        opt_text(r) == first_line(s@),
{
    if s.len() == 0 {
        return None;
    }
    match char_position(s, '\n') {
        Some(k) => {
            let head = until(s, k);
            if k > 0 && head[k - 1] == '\r' {
                Some(until(head, k - 1))
            } else {
                Some(head)
            }
        },
        None => Some(s),
    }
}

/// The words of a text: its maximal runs without white space.
pub open spec fn words(s: Seq<char>) -> Seq<Seq<char>>
    decreases s.len(),
    via words_decreases
{
    let rest = trim_front(s, WHITE_SPACE@);
    if rest.len() == 0 {
        Seq::empty()
    } else {
        let n = word_end(rest, 0);
        seq![rest.take(n)] + words(rest.skip(n))
    }
}

/// The end of the word that holds position `i`.
pub open spec fn word_end(s: Seq<char>, i: int) -> int
    decreases s.len() - i,
{
    if 0 <= i < s.len() && !WHITE_SPACE@.contains(s[i]) {
        word_end(s, i + 1)
    } else {
        i
    }
}

#[via_fn]
proof fn words_decreases(s: Seq<char>) {
    lemma_trim_front_len(s, WHITE_SPACE@);
    let rest = trim_front(s, WHITE_SPACE@);
    if rest.len() > 0 {
        lemma_word_end(rest, 1);
    }
}

proof fn lemma_trim_front_len(s: Seq<char>, set: Seq<char>)
    ensures
        trim_front(s, set).len() <= s.len(),
        trim_front(s, set).len() > 0 ==> !set.contains(trim_front(s, set)[0]),
    decreases s.len(),
{
    if s.len() > 0 && set.contains(s[0]) {
        lemma_trim_front_len(s.drop_first(), set);
    }
}

proof fn lemma_word_end(s: Seq<char>, i: int)
    requires
        0 <= i <= s.len(),
    ensures
        i <= word_end(s, i) <= s.len(),
    decreases s.len() - i,
{
    if i < s.len() && !WHITE_SPACE@.contains(s[i]) {
        lemma_word_end(s, i + 1);
    }
}

/// The words of a text: its maximal runs without white space.
pub fn words_of<'a>(s: &'a [char]) -> (r: Vec<&'a [char]>)
    ensures
        texts(r@) == words(s@),
{
    let mut out: Vec<&'a [char]> = Vec::new();
    let mut rest: &'a [char] = trimmed_front(s, WHITE_SPACE);
    proof {
        lemma_trim_idem(s@, WHITE_SPACE@);
        assert(words(rest@) == words(s@));
        lemma_trim_front_len(s@, WHITE_SPACE@);
        assert(texts(out@) + words(rest@) == words(s@));
    }
    while rest.len() > 0
        invariant
            texts(out@) + words(rest@) == words(s@),
            rest@ == trim_front(rest@, WHITE_SPACE@),
            rest@.len() > 0 ==> !WHITE_SPACE@.contains(rest@[0]),
        decreases rest@.len(),
    {
        let mut n: usize = 0;
        while n < rest.len() && !is_white(rest[n])
            invariant
                0 <= n <= rest@.len(),
                word_end(rest@, 0) == word_end(rest@, n as int),
            decreases rest@.len() - n,
        {
            n += 1;
        }
        assert(n > 0);
        let word = until(rest, n);
        let ghost before = out@;
        out.push(word);
        let tail = from(rest, n);
        let next = trimmed_front(tail, WHITE_SPACE);
        proof {
            assert(texts(out@) == texts(before).push(word@));
            assert(words(rest@) == seq![word@] + words(tail@));
            lemma_trim_idem(tail@, WHITE_SPACE@);
            lemma_trim_front_len(tail@, WHITE_SPACE@);
            assert(words(next@) == words(tail@));
            assert(texts(before) + words(rest@) == texts(out@) + words(next@));
        }
        rest = next;
    }
    assert(texts(out@) + words(rest@) == texts(out@));
    out
}

proof fn lemma_trim_idem(s: Seq<char>, set: Seq<char>)
    ensures
        trim_front(trim_front(s, set), set) == trim_front(s, set),
    decreases s.len(),
{
    if s.len() > 0 && set.contains(s[0]) {
        lemma_trim_idem(s.drop_first(), set);
    }
}

/// The ASCII lower case of a character.
pub open spec fn lower(c: char) -> char {
    if 'A' <= c <= 'Z' {
        ((c as int) + 32) as char
    } else {
        c
    }
}

/// The ASCII upper case of a character.
pub open spec fn upper(c: char) -> char {
    if 'a' <= c <= 'z' {
        ((c as int) - 32) as char
    } else {
        c
    }
}

/// The text with its ASCII letters in lower case.
pub open spec fn lowered(s: Seq<char>) -> Seq<char> {
    s.map_values(|c: char| lower(c))
}

/// The text with its ASCII letters in upper case.
pub open spec fn raised(s: Seq<char>) -> Seq<char> {
    s.map_values(|c: char| upper(c))
}

fn lower_char(c: char) -> (r: char)
    ensures
        r == lower(c),
{
    if 'A' <= c && c <= 'Z' {
        ((c as u8) + 32) as char
    } else {
        c
    }
}

fn upper_char(c: char) -> (r: char)
    ensures
        r == upper(c),
{
    if 'a' <= c && c <= 'z' {
        ((c as u8) - 32) as char
    } else {
        c
    }
}

/// The text with its ASCII letters in lower case.
pub fn to_lower(s: &[char]) -> (r: Vec<char>)
    ensures
        r@ == lowered(s@),
{
    let mut out: Vec<char> = Vec::new();
    let mut i: usize = 0;
    while i < s.len()
        invariant
            0 <= i <= s.len(),
            out@ == lowered(s@.take(i as int)),
        decreases s.len() - i,
    {
        out.push(lower_char(s[i]));
        i += 1;
        assert(s@.take(i as int) == s@.take(i - 1).push(s@[i - 1]));
        assert(lowered(s@.take(i as int)) == lowered(s@.take(i - 1)).push(lower(s@[i - 1])));
    }
    assert(s@.take(i as int) == s@);
    out
}

/// The text with its ASCII letters in upper case.
pub fn to_upper(s: &[char]) -> (r: Vec<char>)
    ensures
        r@ == raised(s@),
{
    let mut out: Vec<char> = Vec::new();
    let mut i: usize = 0;
    while i < s.len()
        invariant
            0 <= i <= s.len(),
            out@ == raised(s@.take(i as int)),
        decreases s.len() - i,
    {
        out.push(upper_char(s[i]));
        i += 1;
        assert(s@.take(i as int) == s@.take(i - 1).push(s@[i - 1]));
        assert(raised(s@.take(i as int)) == raised(s@.take(i - 1)).push(upper(s@[i - 1])));
    }
    assert(s@.take(i as int) == s@);
    out
}

/// Whether one of the first `n` lines from `lo` up to `hi` holds the text.
pub open spec fn some_line_has(ls: Seq<Seq<char>>, lo: int, hi: int, p: Seq<char>) -> bool {
    exists|k: int| lo <= k < hi && #[trigger] contains(ls[k], p)
}

/// Whether one of the lines from `lo` up to `hi` holds the text.
pub fn any_line_has(ls: &Vec<&[char]>, lo: usize, hi: usize, p: &[char]) -> (r: bool)
    requires
        hi <= ls@.len(),
    ensures
        r == some_line_has(texts(ls@), lo as int, hi as int, p@),
{
    let mut k: usize = lo;
    while k < hi
        invariant
            lo <= k,
            hi <= ls@.len(),
            forall|j: int| lo <= j < k ==> !#[trigger] contains(texts(ls@)[j], p@),
        decreases hi - k,
    {
        if has(ls[k], p) {
            assert(contains(texts(ls@)[k as int], p@));
            return true;
        }
        k += 1;
    }
    false
}

/// `str::to_lowercase`: the lower case of a text by Unicode's rules.
pub uninterp spec fn unicode_lowercase(s: Seq<char>) -> Seq<char>;

/// `str::to_lowercase`: the result is the text's Unicode lower case, which is named and
/// not written out. It is also that of the text with its ASCII letters in upper case: an ASCII
/// letter in upper case has the one in lower case as its lower case, and both are cased letters
/// to what stands around them. And `/` and `\`, which have no case, stay as they are, are the
/// lower case of nothing else, and are no letters to what stands around them: which of the two
/// stands in a place makes no difference to the rest.
#[verifier::external_body]
pub(crate) fn lowercase(s: &str) -> (r: String)
    ensures
        r@ == unicode_lowercase(s@),
        r@ == unicode_lowercase(raised(s@)),
        replaced(r@, "/"@, '\\') == unicode_lowercase(replaced(s@, "/"@, '\\')),
{
    s.to_lowercase()
}

/// `str::to_uppercase`: the upper case of a text by Unicode's rules.
pub uninterp spec fn unicode_uppercase(s: Seq<char>) -> Seq<char>;

/// `str::to_uppercase`: the result is the text's Unicode upper case, which is named and
/// not written out.
#[verifier::external_body]
pub(crate) fn uppercase(s: &str) -> (r: String)
    ensures
        r@ == unicode_uppercase(s@),
{
    s.to_uppercase()
}

/// `char::is_alphanumeric`: whether Unicode counts a character as a letter or a number.
pub uninterp spec fn unicode_alphanumeric(c: char) -> bool;

/// `char::is_alphanumeric`: the result is the character's Unicode property, which is named
/// and not written out.
#[verifier::external_body]
pub(crate) fn is_alphanumeric(c: char) -> (r: bool)
    ensures
        r == unicode_alphanumeric(c),
{
    c.is_alphanumeric()
}

/// Whether a character can stand in an identifier.
pub open spec fn in_identifier(c: char) -> bool {
    unicode_alphanumeric(c) || c == '_'
}

/// Whether a character can stand in an identifier.
pub fn is_identifier_char(c: char) -> (r: bool)
    ensures
        r == in_identifier(c),
{
    is_alphanumeric(c) || c == '_'
}

/// The positions of the occurrences of `p` from `i` on that do not overlap.
pub open spec fn matches_from(s: Seq<char>, p: Seq<char>, i: int) -> Seq<int>
    decreases s.len() + 1 - i,
{
    match find_from(s, p, i) {
        Some(k) => if p.len() > 0 && i <= k && k + p.len() <= s.len() {
            seq![k] + matches_from(s, p, k + p.len())
        } else {
            Seq::empty()
        },
        None => Seq::empty(),
    }
}

/// The positions of the occurrences of `p` that do not overlap.
pub open spec fn matches(s: Seq<char>, p: Seq<char>) -> Seq<int> {
    matches_from(s, p, 0)
}

/// The positions of the occurrences of the literal that do not overlap.
pub fn positions(s: &[char], lit: &str) -> (r: Vec<usize>)
    ensures
        crate::syntax::ints(r@) == matches(s@, lit@),
        forall|j: int| 0 <= j < r@.len() ==> #[trigger] r@[j] + lit@.len() <= s@.len() <= usize::MAX,
{
    let p = chars_of(lit);
    let mut out: Vec<usize> = Vec::new();
    if p.len() == 0 {
        assert(matches(s@, lit@) == Seq::<int>::empty());
        assert(crate::syntax::ints(out@) == Seq::<int>::empty());
        return out;
    }
    let mut i: usize = 0;
    assert(crate::syntax::ints(out@) + matches_from(s@, lit@, 0) == matches(s@, lit@));
    loop
        invariant
            p@ == lit@,
            p@.len() > 0,
            i <= s@.len(),
            crate::syntax::ints(out@) + matches_from(s@, lit@, i as int) == matches(s@, lit@),
            forall|j: int| 0 <= j < out@.len() ==> #[trigger] out@[j] + lit@.len() <= s@.len() <= usize::MAX,
        decreases s@.len() - i,
    {
        match find_at(s, p.as_slice(), i) {
            Some(k) => {
                let ghost before = out@;
                out.push(k);
                let ghost rest = matches_from(s@, lit@, k + p@.len());
                assert(crate::syntax::ints(out@) == crate::syntax::ints(before).push(k as int));
                assert(matches_from(s@, lit@, i as int) == seq![k as int] + rest);
                assert(crate::syntax::ints(before) + (seq![k as int] + rest) == crate::syntax::ints(out@) + rest);
                i = k + p.len();
            },
            None => {
                assert(crate::syntax::ints(out@) + Seq::<int>::empty() == crate::syntax::ints(out@));
                return out;
            },
        }
    }
}

/// How often a character occurs.
pub open spec fn count(s: Seq<char>, c: char) -> int
    decreases s.len(),
{
    if s.len() == 0 {
        0
    } else {
        count(s.drop_last(), c) + if s.last() == c {
            1int
        } else {
            0int
        }
    }
}

/// How often a character occurs.
pub fn occurrences(s: &[char], c: char) -> (r: usize)
    ensures
        r == count(s@, c),
        r <= s@.len(),
{
    let mut n: usize = 0;
    let mut i: usize = 0;
    while i < s.len()
        invariant
            0 <= i <= s@.len(),
            n <= i,
            n == count(s@.take(i as int), c),
        decreases s@.len() - i,
    {
        assert(s@.take(i + 1).drop_last() == s@.take(i as int));
        assert(s@.take(i + 1).last() == s@[i as int]);
        if s[i] == c {
            n += 1;
        }
        i += 1;
    }
    assert(s@.take(i as int) == s@);
    n
}

/// The text before the first occurrence of `p`, or the whole text.
pub open spec fn before_text(s: Seq<char>, p: Seq<char>) -> Seq<char> {
    match find(s, p) {
        Some(k) => s.take(k),
        None => s,
    }
}

/// The text after the last occurrence of `p`, or the whole text.
pub open spec fn after_text(s: Seq<char>, p: Seq<char>) -> Seq<char> {
    match rfind(s, p) {
        Some(k) => s.skip(k + p.len()),
        None => s,
    }
}

/// The text before the first occurrence of the literal, or the whole text.
pub fn head_before_lit<'a>(s: &'a [char], lit: &str) -> (r: &'a [char])
    ensures
        r@ == before_text(s@, lit@),
{
    match position_of(s, lit) {
        Some(k) => until(s, k),
        None => s,
    }
}

/// The text after the last occurrence of the literal, or the whole text.
pub fn tail_after_lit<'a>(s: &'a [char], lit: &str) -> (r: &'a [char])
    ensures
        r@ == after_text(s@, lit@),
{
    let p = chars_of(lit);
    match last_position(s, p.as_slice()) {
        Some(k) => from(s, k + p.len()),
        None => s,
    }
}

/// The texts between pairs of double quotes, in order.
pub open spec fn quoted(s: Seq<char>) -> Seq<Seq<char>>
    decreases s.len(),
{
    match index(s, '"') {
        Some(a) => {
            let after = s.skip(a + 1);
            match index(after, '"') {
                Some(b) => if after.skip(b + 1).len() < s.len() {
                    seq![after.take(b)] + quoted(after.skip(b + 1))
                } else {
                    Seq::empty()
                },
                None => Seq::empty(),
            }
        },
        None => Seq::empty(),
    }
}

/// The texts between pairs of double quotes, in order.
pub fn quoted_texts<'a>(s: &'a [char]) -> (r: Vec<&'a [char]>)
    ensures
        texts(r@) == quoted(s@),
{
    let mut out: Vec<&'a [char]> = Vec::new();
    let mut rest: &'a [char] = s;
    assert(texts(out@) + quoted(rest@) == quoted(s@));
    loop
        invariant
            texts(out@) + quoted(rest@) == quoted(s@),
        decreases rest@.len(),
    {
        let a = match char_position(rest, '"') {
            Some(a) => a,
            None => {
                assert(texts(out@) + Seq::<Seq<char>>::empty() == texts(out@));
                return out;
            },
        };
        let after = from(rest, a + 1);
        let b = match char_position(after, '"') {
            Some(b) => b,
            None => {
                assert(texts(out@) + Seq::<Seq<char>>::empty() == texts(out@));
                return out;
            },
        };
        let inner = until(after, b);
        let tail = from(after, b + 1);
        let ghost before = out@;
        out.push(inner);
        assert(texts(out@) == texts(before).push(inner@));
        assert(quoted(rest@) == seq![inner@] + quoted(tail@));
        assert(texts(before) + (seq![inner@] + quoted(tail@)) == texts(out@) + quoted(tail@));
        rest = tail;
    }
}

/// The position after `i` at which brackets close that are `depth` deep at `i`.
pub open spec fn closing(s: Seq<char>, open: char, close: char, i: int, depth: int) -> Option<int>
    decreases s.len() - i,
{
    if i < 0 || i >= s.len() {
        None
    } else if s[i] == open {
        closing(s, open, close, i + 1, depth + 1)
    } else if s[i] == close {
        if depth == 1 {
            Some(i)
        } else {
            closing(s, open, close, i + 1, depth - 1)
        }
    } else {
        closing(s, open, close, i + 1, depth)
    }
}

/// The position from `start` on at which brackets close that are `depth` deep there.
pub fn closing_position(s: &[char], open: char, close: char, start: usize, depth: usize) -> (r: Option<usize>)
    ensures
        opt_int(r) == closing(s@, open, close, start as int, depth as int),
        r matches Some(k) ==> start <= k < s@.len() <= usize::MAX && s@[k as int] == close,
{
    let mut level: i128 = depth as i128;
    let mut i: usize = start;
    while i < s.len()
        invariant
            start <= i,
            depth - (i - start) <= level <= depth + (i - start),
            closing(s@, open, close, start as int, depth as int) == closing(s@, open, close, i as int, level as int),
        decreases s@.len() - i,
    {
        if s[i] == open {
            level += 1;
        } else if s[i] == close {
            if level == 1 {
                return Some(i);
            }
            level -= 1;
        }
        i += 1;
    }
    None
}

/// The text before every trailing repetition of a suffix.
pub open spec fn strip_endings(s: Seq<char>, p: Seq<char>) -> Seq<char>
    decreases s.len(),
{
    if p.len() > 0 && ends_with(s, p) {
        strip_endings(s.take(s.len() - p.len()), p)
    } else {
        s
    }
}

/// The text before every trailing repetition of the literal.
pub fn stripped_endings<'a>(s: &'a [char], lit: &str) -> (r: &'a [char])
    ensures
        r@ == strip_endings(s@, lit@),
        r@.len() <= s@.len(),
{
    let n = length(lit);
    let mut rest: &'a [char] = s;
    while n > 0 && ends(rest, lit)
        invariant
            n == lit@.len(),
            rest@.len() <= s@.len(),
            strip_endings(s@, lit@) == strip_endings(rest@, lit@),
        decreases rest@.len(),
    {
        rest = until(rest, rest.len() - n);
    }
    rest
}

/// The text between two literals.
pub fn wrapped(a: &str, b: &[char], c: &str) -> (r: String)
    ensures
        r@ == a@ + b@ + c@,
{
    let mut out = joined(a, b);
    let tail = chars_of(c);
    push_chars(&mut out, tail.as_slice());
    out
}

/// Texts one after the other, with a separator between them.
pub open spec fn join(parts: Seq<Seq<char>>, sep: Seq<char>) -> Seq<char>
    decreases parts.len(),
{
    if parts.len() == 0 {
        Seq::empty()
    } else if parts.len() == 1 {
        parts[0]
    } else {
        join(parts.drop_last(), sep) + sep + parts.last()
    }
}

/// Texts one after the other, with a literal between them.
pub fn joined_list(parts: &Vec<String>, sep: &str) -> (r: String)
    ensures
        r@ == join(strings(parts@), sep@),
{
    let ghost pv = strings(parts@);
    let between = chars_of(sep);
    let mut out = copy("");
    let mut j: usize = 0;
    proof {
        reveal_strlit("");
        assert(out@ == join(pv.take(0), sep@));
    }
    while j < parts.len()
        invariant
            0 <= j <= parts@.len(),
            pv == strings(parts@),
            between@ == sep@,
            out@ == join(pv.take(j as int), sep@),
        decreases parts@.len() - j,
    {
        proof {
            crate::syntax::lemma_take_step(pv, j as int);
            assert(pv[j as int] == parts@[j as int]@);
            assert(j == 0 ==> out@ + pv[j as int] == pv[j as int]);
        }
        if j > 0 {
            push_chars(&mut out, between.as_slice());
        }
        let s = chars_of(parts[j].as_str());
        push_chars(&mut out, s.as_slice());
        j += 1;
    }
    assert(pv.take(j as int) == pv);
    out
}

/// The text with another character in place of each that is in `set`.
pub open spec fn replaced(s: Seq<char>, set: Seq<char>, to: char) -> Seq<char> {
    s.map_values(
        |c: char|
            if set.contains(c) {
                to
            } else {
                c
            },
    )
}

/// The text with another character in place of each that is in the literal.
pub fn replace_all(s: &[char], lit: &str, to: char) -> (r: Vec<char>)
    ensures
        r@ == replaced(s@, lit@, to),
{
    let set = chars_of(lit);
    let mut out: Vec<char> = Vec::new();
    let mut i: usize = 0;
    while i < s.len()
        invariant
            0 <= i <= s@.len(),
            set@ == lit@,
            out@.len() == i,
            forall|j: int| 0 <= j < i ==> #[trigger] out@[j] == replaced(s@, lit@, to)[j],
        decreases s@.len() - i,
    {
        if is_one_of(s[i], set.as_slice()) {
            out.push(to);
        } else {
            out.push(s[i]);
        }
        i += 1;
    }
    assert(out@ == replaced(s@, lit@, to));
    out
}

/// A list of texts with each string copied.
pub fn copied(v: &Vec<String>) -> (r: Vec<String>)
    ensures
        strings(r@) == strings(v@),
{
    let mut out: Vec<String> = Vec::new();
    let mut i: usize = 0;
    while i < v.len()
        invariant
            0 <= i <= v@.len(),
            out@.len() == i,
            forall|j: int| 0 <= j < i ==> (#[trigger] out@[j])@ == v@[j]@,
        decreases v@.len() - i,
    {
        out.push(copy(v[i].as_str()));
        i += 1;
    }
    assert(strings(out@) == strings(v@));
    out
}

/// The text without the characters that are in `set`.
pub open spec fn removed(s: Seq<char>, set: Seq<char>) -> Seq<char>
    decreases s.len(),
{
    if s.len() == 0 {
        Seq::empty()
    } else if set.contains(s.last()) {
        removed(s.drop_last(), set)
    } else {
        removed(s.drop_last(), set).push(s.last())
    }
}

/// The text without the characters that are in the literal.
pub fn remove_all(s: &[char], lit: &str) -> (r: Vec<char>)
    ensures
        r@ == removed(s@, lit@),
{
    let set = chars_of(lit);
    let mut out: Vec<char> = Vec::new();
    let mut i: usize = 0;
    assert(s@.take(0) == Seq::<char>::empty());
    while i < s.len()
        invariant
            0 <= i <= s@.len(),
            set@ == lit@,
            out@ == removed(s@.take(i as int), lit@),
        decreases s@.len() - i,
    {
        proof {
            crate::syntax::lemma_take_step(s@, i as int);
        }
        if !is_one_of(s[i], set.as_slice()) {
            out.push(s[i]);
        }
        i += 1;
    }
    assert(s@.take(i as int) == s@);
    out
}

} // verus!
