//! File names, stems and extensions of slash-separated paths.
use vstd::prelude::*;
use crate::text_laws;
use crate::text;

verus! {

/// A path without the separators and the `.` components at its end.
pub open spec fn trimmed_path(p: Seq<char>) -> Seq<char>
    decreases p.len(),
{
    if p.len() > 0 && p.last() == '/' {
        trimmed_path(p.drop_last())
    } else if p.len() > 1 && p.last() == '.' && p[p.len() - 2] == '/' {
        trimmed_path(p.drop_last())
    } else {
        p
    }
}

/// The last component of a path, unless that is the root, `.` or `..`.
pub open spec fn file_name(p: Seq<char>) -> Option<Seq<char>> {
    let name = text::after_last(trimmed_path(p), '/');
    if name.len() == 0 || name == "."@ || name == ".."@ {
        None
    } else {
        Some(name)
    }
}

/// A file name up to its last dot, unless that starts the name.
pub open spec fn stem_of(name: Seq<char>) -> Seq<char> {
    match text::rindex(name, '.') {
        Some(k) => if k > 0 {
            name.take(k)
        } else {
            name
        },
        None => name,
    }
}

/// A file name after its last dot, unless that starts the name.
pub open spec fn extension_of(name: Seq<char>) -> Option<Seq<char>> {
    match text::rindex(name, '.') {
        Some(k) => if k > 0 {
            Some(name.skip(k + 1))
        } else {
            None
        },
        None => None,
    }
}

/// The file name of a path up to its last dot.
pub open spec fn file_stem(p: Seq<char>) -> Option<Seq<char>> {
    match file_name(p) {
        Some(name) => Some(stem_of(name)),
        None => None,
    }
}

/// The extension of a path's file name.
pub open spec fn extension(p: Seq<char>) -> Option<Seq<char>> {
    match file_name(p) {
        Some(name) => extension_of(name),
        None => None,
    }
}

/// The last component of a path, unless that is the root, `.` or `..`.
pub fn name_of<'a>(p: &'a [char]) -> (r: Option<&'a [char]>)
    ensures
        text::opt_text(r) == file_name(p@),
{
    let mut n: usize = p.len();
    assert(p@.take(n as int) == p@);
    while n > 0 && (p[n - 1] == '/' || (n > 1 && p[n - 1] == '.' && p[n - 2] == '/'))
        invariant
            n <= p@.len(),
            trimmed_path(p@) == trimmed_path(p@.take(n as int)),
        decreases n,
    {
        assert(p@.take(n as int).drop_last() == p@.take(n - 1));
        n -= 1;
    }
    let name = text::tail_after(text::until(p, n), '/');
    if name.len() == 0 || text::is(name, ".") || text::is(name, "..") {
        None
    } else {
        Some(name)
    }
}

/// The file name of a path up to its last dot.
pub fn stem<'a>(p: &'a [char]) -> (r: Option<&'a [char]>)
    ensures
        text::opt_text(r) == file_stem(p@),
{
    match name_of(p) {
        Some(name) => match text::last_char_position(name, '.') {
            Some(k) => if k > 0 {
                Some(text::until(name, k))
            } else {
                Some(name)
            },
            None => Some(name),
        },
        None => None,
    }
}

/// The extension of a path's file name.
pub fn suffix<'a>(p: &'a [char]) -> (r: Option<&'a [char]>)
    ensures
        text::opt_text(r) == extension(p@),
{
    match name_of(p) {
        Some(name) => match text::last_char_position(name, '.') {
            Some(k) => if k > 0 {
                Some(text::from(name, k + 1))
            } else {
                None
            },
            None => None,
        },
        None => None,
    }
}

/// Whether a piece of a path is a component of it: separators that follow each other and `.`
/// make none.
pub open spec fn is_component(piece: Seq<char>) -> bool {
    piece.len() > 0 && piece != "."@
}

/// The pieces that are components.
pub open spec fn components_among(pieces: Seq<Seq<char>>) -> Seq<Seq<char>>
    decreases pieces.len(),
{
    if pieces.len() == 0 {
        Seq::empty()
    } else if is_component(pieces.last()) {
        components_among(pieces.drop_last()).push(pieces.last())
    } else {
        components_among(pieces.drop_last())
    }
}

/// What a path starts with beside its components: the root, or a `.` of its own.
pub open spec fn path_start(p: Seq<char>) -> Seq<Seq<char>> {
    let pieces = text::split(p, '/');
    if p.len() > 0 && p[0] == '/' {
        seq!["/"@]
    } else if pieces.len() > 0 && pieces[0] == "."@ {
        seq!["."@]
    } else {
        Seq::empty()
    }
}

/// The components of a path, from the root or a `.` at its start on.
pub open spec fn components(p: Seq<char>) -> Seq<Seq<char>> {
    path_start(p) + components_among(text::split(p, '/'))
}

/// The components of a path.
pub fn components_of(p: &str) -> (r: Vec<String>)
    ensures
        text::strings(r@) == components(p@),
{
    let chars = text::chars_of(p);
    let parts = text::pieces(chars.as_slice(), '/');
    let ghost pv = text::texts(parts@);
    assert(pv.len() == parts@.len());
    let mut out: Vec<String> = Vec::new();
    if chars.len() > 0 && chars[0] == '/' {
        out.push(text::copy("/"));
    } else if parts.len() > 0 {
        assert(pv[0] == parts@[0]@);
        if text::is(parts[0], ".") {
            out.push(text::copy("."));
        }
    }
    let ghost start = path_start(p@);
    assert(text::strings(out@) == start);
    let mut j: usize = 0;
    assert(pv.take(0) == Seq::<Seq<char>>::empty());
    assert(start + Seq::<Seq<char>>::empty() == start);
    while j < parts.len()
        invariant
            0 <= j <= parts@.len(),
            pv == text::texts(parts@),
            text::strings(out@) == start + components_among(pv.take(j as int)),
        decreases parts@.len() - j,
    {
        proof {
            crate::syntax::lemma_take_step(pv, j as int);
            assert(pv[j as int] == parts@[j as int]@);
        }
        if parts[j].len() > 0 && !text::is(parts[j], ".") {
            let ghost rest = components_among(pv.take(j as int));
            let x = text::string_of(parts[j]);
            assert(start + rest.push(x@) == (start + rest).push(x@));
            crate::model::push_string(&mut out, x);
        }
        j += 1;
    }
    assert(pv.take(j as int) == pv);
    out
}

/// The file name of a path is what stands behind its last slash.
pub proof fn law_file_names_follow_the_last_slash(dir: Seq<char>, name: Seq<char>)
    requires
        name.len() > 0,
        name != "."@ && name != ".."@,
        forall|j: int| 0 <= j < name.len() ==> #[trigger] name[j] != '/',
    ensures
        file_name(dir + "/"@ + name) == Some(name),
        file_name(name) == Some(name),
{
    reveal_strlit("/");
    reveal_strlit(".");
    let p = dir + "/"@ + name;
    assert(p.last() == name.last());
    assert(name[name.len() - 1] == name.last());
    if name.len() == 1 && name[0] == '.' {
        assert(name == "."@);
    }
    assert(p[p.len() - 2] == '/' ==> name.len() == 1) by {
        if name.len() > 1 {
            assert(p[p.len() - 2] == name[name.len() - 2]);
        }
    }
    assert(trimmed_path(p) == p);
    assert(name.len() > 1 ==> name[name.len() - 2] != '/');
    assert(trimmed_path(name) == name);
    lemma_after_last(dir + "/"@, name);
    lemma_after_last(Seq::empty(), name);
    assert(Seq::<char>::empty() + name == name);
}

proof fn lemma_after_last(a: Seq<char>, name: Seq<char>)
    requires
        forall|j: int| 0 <= j < name.len() ==> #[trigger] name[j] != '/',
        a.len() > 0 ==> a.last() == '/',
    ensures
        text::after_last(a + name, '/') == name,
{
    let s = a + name;
    lemma_no_slash_behind(s, a.len() as int, s.len() - 1);
    if a.len() > 0 {
        assert(s[a.len() - 1] == a.last());
        assert(s.skip(a.len() as int) == name);
    } else {
        assert(s == name);
    }
}

proof fn lemma_no_slash_behind(s: Seq<char>, n: int, k: int)
    requires
        0 <= n <= s.len(),
        n - 1 <= k < s.len(),
        forall|j: int| n <= j < s.len() ==> #[trigger] s[j] != '/',
    ensures
        text::rindex_from(s, '/', k) == text::rindex_from(s, '/', n - 1),
    decreases k - n + 1,
{
    if k >= n {
        assert(s[k] != '/');
        lemma_no_slash_behind(s, n, k - 1);
    }
}

/// The stem of a name is what stands before its last dot and the extension what stands behind it; a
/// name without a dot, or with one in front alone, is all stem.
pub proof fn law_stems_and_extensions(stem: Seq<char>, ext: Seq<char>)
    requires
        !ext.contains('.'),
    ensures
        stem.len() > 0 ==> stem_of(stem.push('.') + ext) == stem && extension_of(stem.push('.') + ext) == Some(ext),
        stem_of(ext) == ext && extension_of(ext) is None,
        stem_of(seq!['.'] + ext) == seq!['.'] + ext && extension_of(seq!['.'] + ext) is None,
{
    let s = stem.push('.') + ext;
    let k = stem.len() as int;
    text_laws::law_rindex_is_last(s, '.');
    assert(s[k] == '.');
    assert(s.contains('.'));
    let j = text::rindex(s, '.')->0;
    if j > k {
        assert(ext[j - k - 1] == '.');
    }
    assert(s.take(k) == stem);
    assert(s.skip(k + 1) == ext);
    text_laws::law_rindex_is_last(ext, '.');
    let u = seq!['.'] + ext;
    text_laws::law_rindex_is_last(u, '.');
    assert(u[0] == '.');
    assert(u.contains('.'));
    let m = text::rindex(u, '.')->0;
    if m > 0 {
        assert(ext[m - 1] == '.');
    }
}

} // verus!
