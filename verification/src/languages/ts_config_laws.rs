//! What holds of the settings of TypeScript projects.
use vstd::prelude::*;
use crate::languages::ts_config;
use crate::text;

verus! {

proof fn lemma_line_end(s: Seq<char>, i: int, e: int)
    requires
        0 <= i <= e <= s.len(),
        e < s.len() ==> s[e] == '\n',
        forall|j: int| i <= j < e ==> #[trigger] s[j] != '\n',
    ensures
        ts_config::line_end(s, i) == e,
    decreases e - i,
{
    if i < e {
        assert(s[i] != '\n');
        lemma_line_end(s, i + 1, e);
    }
}

proof fn lemma_comment_end(s: Seq<char>, i: int, e: int)
    requires
        0 <= i <= e,
        e + 1 < s.len(),
        s[e] == '*' && s[e + 1] == '/',
        forall|j: int| i <= j < e ==> !(#[trigger] s[j] == '*' && s[j + 1] == '/'),
    ensures
        ts_config::comment_end(s, i) == e + 2,
    decreases e - i,
{
    if i < e {
        assert(!(s[i] == '*' && s[i + 1] == '/'));
        lemma_comment_end(s, i + 1, e);
    }
}

proof fn lemma_string_end(s: Seq<char>, i: int, e: int)
    requires
        0 <= i <= e < s.len(),
        s[e] == '"',
        forall|j: int| i <= j < e ==> #[trigger] s[j] != '"' && s[j] != '\\',
    ensures
        ts_config::string_end(s, i) == e + 1,
    decreases e - i,
{
    if i < e {
        assert(s[i] != '"' && s[i] != '\\');
        lemma_string_end(s, i + 1, e);
    }
}

/// A comment from `//` on is left out up to the end of its line, which stays.
pub proof fn law_line_comments_are_left_out(s: Seq<char>, i: int, e: int)
    requires
        0 <= i,
        i + 2 <= e <= s.len(),
        s[i] == '/' && s[i + 1] == '/',
        e < s.len() ==> s[e] == '\n',
        forall|j: int| i + 2 <= j < e ==> #[trigger] s[j] != '\n',
    ensures
        ts_config::uncommented(s, i) == ts_config::uncommented(s, e),
{
    lemma_line_end(s, i + 2, e);
}

/// A comment between `/*` and `*/` is left out.
pub proof fn law_block_comments_are_left_out(s: Seq<char>, i: int, e: int)
    requires
        0 <= i,
        i + 2 <= e,
        e + 1 < s.len(),
        s[i] == '/' && s[i + 1] == '*',
        s[e] == '*' && s[e + 1] == '/',
        forall|j: int| i + 2 <= j < e ==> !(#[trigger] s[j] == '*' && s[j + 1] == '/'),
    ensures
        ts_config::uncommented(s, i) == ts_config::uncommented(s, e + 2),
{
    lemma_comment_end(s, i + 2, e);
}

/// What stands in double quotes stays, whatever it looks like, and so does every other character
/// that starts no comment.
pub proof fn law_the_rest_stays(s: Seq<char>, i: int, e: int)
    requires
        0 <= i < s.len(),
    ensures
        s[i] == '"' && i < e < s.len() && s[e] == '"' && (forall|j: int| i < j < e ==> #[trigger] s[j] != '"' && s[j] != '\\')
            ==> ts_config::uncommented(s, i) == s.subrange(i, e + 1) + ts_config::uncommented(s, e + 1),
        s[i] != '"' && s[i] != '/' ==> ts_config::uncommented(s, i) == seq![s[i]] + ts_config::uncommented(s, i + 1),
{
    if s[i] == '"' && i < e < s.len() && s[e] == '"' && (forall|j: int| i < j < e ==> #[trigger] s[j] != '"' && s[j] != '\\') {
        lemma_string_end(s, i + 1, e);
    }
}

/// An import that starts with a mapped prefix is resolved to what the prefix is mapped to, followed
/// by the rest of the import; the first mapping that fits counts.
pub proof fn law_imports_are_resolved(s: Seq<(Seq<char>, Seq<char>)>, k: int, rest: Seq<char>)
    requires
        0 <= k < s.len(),
        forall|j: int| 0 <= j < k ==> !text::starts_with(s[k].0 + rest, (#[trigger] s[j]).0),
    ensures
        ts_config::resolved(s, s[k].0 + rest) == Some(s[k].1 + rest),
    decreases s.len(),
{
    let import = s[k].0 + rest;
    if k == 0 {
        assert(import.subrange(0, s[0].0.len() as int) == s[0].0);
        assert(import.skip(s[0].0.len() as int) == rest);
    } else {
        assert(!text::starts_with(import, s[0].0));
        let tail = s.drop_first();
        assert(tail[k - 1] == s[k]);
        assert forall|j: int| 0 <= j < k - 1 implies !text::starts_with(tail[k - 1].0 + rest, (#[trigger] tail[j]).0) by {
            assert(tail[j] == s[j + 1]);
        }
        law_imports_are_resolved(tail, k - 1, rest);
    }
}

/// A target `./x*` stands for `x` where the base is the directory itself, and for the base, a slash
/// and `x` elsewhere.
pub proof fn law_targets_start_at_the_base(x: Seq<char>, base: Seq<char>)
    requires
        x.len() > 0,
        x.last() != '*',
    ensures
        base == "."@ || base == "./"@ || base.len() == 0 ==> ts_config::target_prefix("./"@ + x + "*"@, base) == x,
        base != "."@ && base.len() > 0 && base.last() != '/' ==> ts_config::target_prefix("./"@ + x + "*"@, base) == base + "/"@ + x,
{
    reveal_strlit("./");
    reveal_strlit("*");
    reveal_strlit("/");
    let target = "./"@ + x + "*"@;
    let bare = "./"@ + x;
    assert(target.drop_last() == bare);
    assert(("*"@)[0] == '*');
    assert(("*"@).contains(target.last()));
    assert(!("*"@).contains(bare.last())) by {
        if ("*"@).contains(bare.last()) {
            let k = choose|k: int| 0 <= k < ("*"@).len() && ("*"@)[k] == bare.last();
            assert(bare.last() == x.last());
        }
    }
    assert(text::trim_back(bare, "*"@) == bare);
    assert(text::trim_back(target, "*"@) == bare);
    assert(bare.subrange(0, 2) == "./"@);
    assert(bare.skip(2) == x);
    if base != "."@ && base.len() > 0 && base.last() != '/' {
        assert(("./"@)[1] == '/');
        assert(base != "./"@);
        assert(!("/"@).contains(base.last())) by {
            if ("/"@).contains(base.last()) {
                let k = choose|k: int| 0 <= k < ("/"@).len() && ("/"@)[k] == base.last();
                assert(("/"@)[k] == '/');
            }
        }
        assert(text::trim_back(base, "/"@) == base);
    }
}

} // verus!
