//! Syntax trees as flat lists of nodes in preorder, with their source text.
use vstd::prelude::*;
use vstd::slice::slice_subrange;
use crate::text;

verus! {

/// `tree_sitter::Tree`, a parsed file.
#[verifier::external_type_specification]
#[verifier::external_body]
pub struct ExTree(tree_sitter::Tree);

/// `tree_sitter::TreeCursor`, a position in a parsed file.
#[verifier::external_type_specification]
#[verifier::external_body]
pub struct ExTreeCursor<'a>(tree_sitter::TreeCursor<'a>);

/// `tree_sitter::Parser`, a parser with the grammar and the limits it was given.
#[verifier::external_type_specification]
#[verifier::external_body]
pub struct ExParser(tree_sitter::Parser);

/// The nodes, in preorder, of the tree that a parser in the given state makes of a text when
/// it comes to an end.
pub uninterp spec fn parsed_rows(parser: tree_sitter::Parser, content: Seq<char>) -> Seq<NodeRow>;

/// `Parser::parse` without an earlier tree. A tree that it gives back is the one that the
/// parser's state and the text determine. Whether it gives one back within its time limit is
/// left open.
#[verifier::external_body]
pub(crate) fn parse(parser: &mut tree_sitter::Parser, content: &str) -> (r: Option<tree_sitter::Tree>)
    ensures
        r matches Some(t) ==> tree_rows(t) == parsed_rows(*old(parser), content@),
{
    parser.parse(content, None)
}

/// What parsing a text may come to: the tree that the parser makes of it, if it is done in
/// time.
pub open spec fn outcome(parser: tree_sitter::Parser, content: Seq<char>, done: bool) -> Option<TreeView> {
    if done {
        Some(TreeView { rows: parsed_rows(parser, content), src: content })
    } else {
        None
    }
}

/// One node of a syntax tree.
#[derive(Clone, Copy, Debug)]
pub struct SyntaxNode {
    /// The grammar's name of the node.
    pub kind: &'static str,
    /// The field of the parent that the node fills.
    pub field: Option<&'static str>,
    /// Whether the grammar names the node (it is no bare token).
    pub named: bool,
    /// Whether the node stands for text that did not parse.
    pub error: bool,
    /// Whether the parser made the node up to recover from an error.
    pub missing: bool,
    /// Whether the node or one below it comes from an error.
    pub has_error: bool,
    pub start_byte: usize,
    pub end_byte: usize,
    pub start_row: usize,
    /// The number of bytes between the start of the row and the node.
    pub start_column: usize,
    pub end_row: usize,
    /// The number of nodes in the subtree, the node itself included.
    pub count: usize,
}

/// One node of a syntax tree, as a mathematical value.
#[verifier::ext_equal]
pub struct NodeRow {
    pub kind: Seq<char>,
    pub field: Option<Seq<char>>,
    pub named: bool,
    pub error: bool,
    pub missing: bool,
    pub has_error: bool,
    pub start_byte: int,
    pub end_byte: int,
    pub start_row: int,
    pub start_column: int,
    pub end_row: int,
    pub count: int,
}

impl View for SyntaxNode {
    type V = NodeRow;

    open spec fn view(&self) -> NodeRow {
        NodeRow {
            kind: self.kind@,
            field: match self.field {
                Some(f) => Some(f@),
                None => None,
            },
            named: self.named,
            error: self.error,
            missing: self.missing,
            has_error: self.has_error,
            start_byte: self.start_byte as int,
            end_byte: self.end_byte as int,
            start_row: self.start_row as int,
            start_column: self.start_column as int,
            end_row: self.end_row as int,
            count: self.count as int,
        }
    }
}

/// The nodes of a parsed file in preorder, as `tree_sitter` reports them.
pub uninterp spec fn tree_rows(tree: tree_sitter::Tree) -> Seq<NodeRow>;

/// The nodes below the node that a cursor started from, in preorder, that node
/// first.
pub uninterp spec fn cursor_rows(cursor: tree_sitter::TreeCursor<'_>) -> Seq<NodeRow>;

/// `Tree::walk`: a cursor that starts from the root, so that it ranges over the
/// nodes of the whole tree.
#[verifier::external_body]
fn cursor_of(tree: &tree_sitter::Tree) -> (r: tree_sitter::TreeCursor<'_>)
    ensures
        cursor_rows(r) == tree_rows(*tree),
{
    tree.walk()
}

/// `Node::descendant_count` on the root: the number of nodes of the tree.
#[verifier::external_body]
fn row_count(tree: &tree_sitter::Tree) -> (r: usize)
    ensures
        r == tree_rows(*tree).len(),
{
    tree.root_node().descendant_count()
}

/// `TreeCursor::goto_descendant`: moves to the node with the given preorder
/// number and reads it there. The cursor still ranges over the same nodes.
#[verifier::external_body]
fn row_at(cursor: &mut tree_sitter::TreeCursor<'_>, i: usize) -> (r: SyntaxNode)
    requires
        i < cursor_rows(*old(cursor)).len(),
    ensures
        r@ == cursor_rows(*old(cursor))[i as int],
        cursor_rows(*final(cursor)) == cursor_rows(*old(cursor)),
{
    cursor.goto_descendant(i);
    let n = cursor.node();
    SyntaxNode {
        kind: n.kind(), field: cursor.field_name(), named: n.is_named(),
        error: n.is_error(), missing: n.is_missing(), has_error: n.has_error(),
        start_byte: n.start_byte(), end_byte: n.end_byte(),
        start_row: n.start_position().row, start_column: n.start_position().column,
        end_row: n.end_position().row,
        count: n.descendant_count(),
    }
}

/// The number of bytes that UTF-8 takes for a character.
pub open spec fn width(c: char) -> int {
    if c as u32 <= 0x7f {
        1
    } else if c as u32 <= 0x7ff {
        2
    } else if c as u32 <= 0xffff {
        3
    } else {
        4
    }
}

/// The number of bytes that UTF-8 takes for a text.
pub open spec fn byte_len(s: Seq<char>) -> int
    decreases s.len(),
{
    if s.len() == 0 {
        0
    } else {
        byte_len(s.drop_last()) + width(s.last())
    }
}

/// The byte length of a text is that of its parts, added up.
pub proof fn law_byte_len_adds_up(a: Seq<char>, b: Seq<char>)
    ensures
        byte_len(a + b) == byte_len(a) + byte_len(b),
    decreases b.len(),
{
    if b.len() > 0 {
        law_byte_len_adds_up(a, b.drop_last());
        assert((a + b).drop_last() == a + b.drop_last());
        assert((a + b).last() == b.last());
    } else {
        assert(a + b == a);
    }
}

/// No character takes more than four bytes.
pub proof fn law_byte_len_is_bounded(s: Seq<char>)
    ensures
        s.len() <= byte_len(s) <= 4 * s.len(),
    decreases s.len(),
{
    if s.len() > 0 {
        law_byte_len_is_bounded(s.drop_last());
    }
}

/// The number of bytes that UTF-8 takes for a string.
pub fn bytes_in(s: &str) -> (r: usize)
    ensures
        r == byte_len(s@),
{
    proof {
        law_byte_len_is_utf8_len(s@);
    }
    s.as_bytes().len()
}

/// The number of characters before the byte at offset `b`, where `b` is not
/// inside a character.
pub open spec fn char_index(s: Seq<char>, b: int) -> Option<int> {
    if exists|k: int| 0 <= k <= s.len() && #[trigger] byte_len(s.take(k)) == b {
        Some(choose|k: int| 0 <= k <= s.len() && #[trigger] byte_len(s.take(k)) == b)
    } else {
        None
    }
}

proof fn lemma_byte_len_front(s: Seq<char>)
    requires
        s.len() > 0,
    ensures
        byte_len(s) == width(s[0]) + byte_len(s.drop_first()),
    decreases s.len(),
{
    if s.len() > 1 {
        lemma_byte_len_front(s.drop_last());
        assert(s.drop_last().drop_first() == s.drop_first().drop_last());
        assert(s.drop_first().last() == s.last());
    } else {
        assert(byte_len(s.drop_last()) == 0);
        assert(byte_len(s.drop_first()) == 0);
    }
}

/// The byte length of a text is the length of its UTF-8 encoding.
pub proof fn law_byte_len_is_utf8_len(s: Seq<char>)
    ensures
        byte_len(s) == vstd::utf8::encode_utf8(s).len(),
    decreases s.len(),
{
    if s.len() > 0 {
        law_byte_len_is_utf8_len(s.drop_first());
        lemma_byte_len_front(s);
        vstd::utf8::char_is_scalar(s[0]);
        assert(vstd::utf8::encode_utf8(s) == vstd::utf8::encode_scalar(s[0] as u32) + vstd::utf8::encode_utf8(s.drop_first()));
        assert(vstd::utf8::encode_scalar(s[0] as u32).len() == width(s[0]));
    }
}

proof fn lemma_byte_len_mono(s: Seq<char>, i: int, j: int)
    requires
        0 <= i <= j <= s.len(),
    ensures
        byte_len(s.take(i)) + (j - i) <= byte_len(s.take(j)),
        byte_len(s.take(i)) >= 0,
    decreases j,
{
    if i < j {
        lemma_byte_len_mono(s, i, j - 1);
        assert(s.take(j).drop_last() == s.take(j - 1));
    } else if i > 0 {
        lemma_byte_len_mono(s, i - 1, i - 1);
        assert(s.take(i).drop_last() == s.take(i - 1));
    }
}

/// The number of bytes that UTF-8 takes for a character.
pub fn width_of(c: char) -> (r: usize)
    ensures
        r == width(c),
{
    let n: u32 = c as u32;
    if n <= 0x7f {
        1
    } else if n <= 0x7ff {
        2
    } else if n <= 0xffff {
        3
    } else {
        4
    }
}

/// The byte offsets of the characters of a text, and of its end.
pub fn byte_starts(content: &str, chars: &Vec<char>) -> (r: Vec<usize>)
    requires
        chars@ == content@,
    ensures
        r@.len() == chars@.len() + 1,
        forall|k: int| 0 <= k <= chars@.len() ==> #[trigger] r@[k] == byte_len(chars@.take(k)),
{
    let total: usize = content.as_bytes().len();
    proof {
        law_byte_len_is_utf8_len(content@);
        assert(chars@.take(chars@.len() as int) == chars@);
    }
    let mut out: Vec<usize> = Vec::new();
    out.push(0);
    let mut at: usize = 0;
    let mut i: usize = 0;
    assert(byte_len(chars@.take(0)) == 0);
    while i < chars.len()
        invariant
            0 <= i <= chars@.len(),
            at == byte_len(chars@.take(i as int)),
            total == byte_len(chars@.take(chars@.len() as int)),
            out@.len() == i + 1,
            forall|k: int| 0 <= k <= i ==> #[trigger] out@[k] == byte_len(chars@.take(k)),
        decreases chars@.len() - i,
    {
        proof {
            lemma_byte_len_mono(chars@, i + 1, chars@.len() as int);
            assert(chars@.take(i + 1).drop_last() == chars@.take(i as int));
            assert(chars@.take(i + 1).last() == chars@[i as int]);
        }
        at = at + width_of(chars[i]);
        out.push(at);
        i += 1;
    }
    out
}

/// The number of characters before the byte at offset `b`, given the byte offsets
/// of the characters.
pub fn char_at_byte(chars: &Vec<char>, starts: &Vec<usize>, b: usize) -> (r: Option<usize>)
    requires
        starts@.len() == chars@.len() + 1,
        forall|k: int| 0 <= k <= chars@.len() ==> #[trigger] starts@[k] == byte_len(chars@.take(k)),
    ensures
        text::opt_int(r) == char_index(chars@, b as int),
        r matches Some(k) ==> k <= chars@.len(),
{
    let mut lo: usize = 0;
    let mut hi: usize = starts.len();
    while lo < hi
        invariant
            0 <= lo <= hi <= starts@.len(),
            starts@.len() == chars@.len() + 1,
            forall|k: int| 0 <= k <= chars@.len() ==> #[trigger] starts@[k] == byte_len(chars@.take(k)),
            forall|k: int| 0 <= k < lo ==> #[trigger] byte_len(chars@.take(k)) < b,
            forall|k: int| hi <= k <= chars@.len() ==> #[trigger] byte_len(chars@.take(k)) > b,
        decreases hi - lo,
    {
        let mid: usize = lo + (hi - lo) / 2;
        if starts[mid] == b {
            proof {
                let k2 = choose|k: int| 0 <= k <= chars@.len() && #[trigger] byte_len(chars@.take(k)) == b;
                assert(byte_len(chars@.take(mid as int)) == b);
                if k2 < mid {
                    lemma_byte_len_mono(chars@, k2, mid as int);
                } else {
                    lemma_byte_len_mono(chars@, mid as int, k2);
                }
            }
            return Some(mid);
        } else if starts[mid] < b {
            assert forall|k: int| 0 <= k < mid + 1 implies #[trigger] byte_len(chars@.take(k)) < b by {
                lemma_byte_len_mono(chars@, k, mid as int);
            }
            lo = mid + 1;
        } else {
            assert forall|k: int| mid <= k <= chars@.len() implies #[trigger] byte_len(chars@.take(k)) > b by {
                lemma_byte_len_mono(chars@, mid as int, k);
            }
            hi = mid;
        }
    }
    None
}

/// The characters between two byte offsets, where both stand between characters.
pub open spec fn byte_slice(s: Seq<char>, start: int, end: int) -> Option<Seq<char>> {
    match (char_index(s, start), char_index(s, end)) {
        (Some(a), Some(b)) => if a <= b {
            Some(s.subrange(a, b))
        } else {
            None
        },
        _ => None,
    }
}

/// The line number, counted from one, of a row counted from zero.
pub open spec fn line_of_row(row: int) -> int {
    if row < usize::MAX {
        row + 1
    } else {
        usize::MAX as int
    }
}

/// A syntax tree with its source text, as a mathematical value.
#[verifier::ext_equal]
pub struct TreeView {
    pub rows: Seq<NodeRow>,
    pub src: Seq<char>,
}

impl TreeView {
    /// Whether there is a node `i`.
    pub open spec fn valid(self, i: int) -> bool {
        0 <= i < self.rows.len()
    }

    /// The grammar's name of node `i`.
    pub open spec fn kind(self, i: int) -> Seq<char> {
        self.rows[i].kind
    }

    /// Whether the grammar names node `i`.
    pub open spec fn named(self, i: int) -> bool {
        self.rows[i].named
    }

    /// The index just after the subtree of node `i`.
    pub open spec fn last(self, i: int) -> int {
        i + self.rows[i].count
    }

    /// The line on which node `i` starts, counted from one.
    pub open spec fn line(self, i: int) -> int {
        line_of_row(self.rows[i].start_row)
    }

    /// The line on which node `i` ends, counted from one.
    pub open spec fn end_line(self, i: int) -> int {
        line_of_row(self.rows[i].end_row)
    }

    /// The source text of node `i`.
    pub open spec fn text(self, i: int) -> Option<Seq<char>> {
        byte_slice(self.src, self.rows[i].start_byte, self.rows[i].end_byte)
    }

    /// The character at the byte where node `i` starts.
    pub open spec fn first_char(self, i: int) -> Option<char> {
        match char_index(self.src, self.rows[i].start_byte) {
            Some(k) => if k < self.src.len() {
                Some(self.src[k])
            } else {
                None
            },
            None => None,
        }
    }

    /// The first line of the text of node `i`, trimmed.
    pub open spec fn head(self, i: int) -> Option<Seq<char>> {
        match self.text(i) {
            Some(s) => match text::first_line(s) {
                Some(l) => Some(text::trim(l)),
                None => None,
            },
            None => None,
        }
    }

    /// Whether a subtree starts at `lo` and ends by `hi`.
    pub open spec fn fits(self, lo: int, hi: int) -> bool {
        0 <= lo < self.last(lo) <= hi <= self.rows.len()
    }

    /// The roots of the subtrees that stand side by side from `lo` up to `hi`.
    pub open spec fn siblings(self, lo: int, hi: int) -> Seq<int>
        decreases hi - lo,
    {
        if self.fits(lo, hi) {
            seq![lo] + self.siblings(self.last(lo), hi)
        } else {
            Seq::empty()
        }
    }

    /// The children of node `i`, in order.
    pub open spec fn children(self, i: int) -> Seq<int> {
        self.siblings(i + 1, self.last(i))
    }

    /// The children of node `i` that the grammar names.
    pub open spec fn named_children(self, i: int) -> Seq<int> {
        self.children(i).filter(|k: int| self.named(k))
    }

    /// The children of node `i` that fill the field.
    pub open spec fn field_children(self, i: int, name: Seq<char>) -> Seq<int> {
        self.children(i).filter(|k: int| self.rows[k].field == Some(name))
    }

    /// The first child of node `i` that fills the field.
    pub open spec fn field(self, i: int, name: Seq<char>) -> Option<int> {
        let ks = self.field_children(i, name);
        if ks.len() > 0 {
            Some(ks[0])
        } else {
            None
        }
    }

    /// The text of the first child of node `i` that fills the field.
    pub open spec fn field_text(self, i: int, name: Seq<char>) -> Option<Seq<char>> {
        match self.field(i, name) {
            Some(k) => self.text(k),
            None => None,
        }
    }

    /// The first child of node `i` of the given kind.
    pub open spec fn child_of_kind(self, i: int, kind: Seq<char>) -> Option<int> {
        let ks = self.children(i).filter(|k: int| self.kind(k) == kind);
        if ks.len() > 0 {
            Some(ks[0])
        } else {
            None
        }
    }

    /// The nodes of a list that are of the given kind.
    pub open spec fn of_kind(self, ks: Seq<int>, kind: Seq<char>) -> Seq<int> {
        ks.filter(|k: int| self.kind(k) == kind)
    }

    /// The children of all nodes of a list, in order.
    pub open spec fn below(self, ks: Seq<int>) -> Seq<int>
        decreases ks.len(),
    {
        if ks.len() == 0 {
            Seq::empty()
        } else {
            self.below(ks.drop_last()) + self.children(ks.last())
        }
    }

    /// The sibling just before node `i`, whose parent is `parent`.
    pub open spec fn previous(self, parent: Option<int>, i: int) -> Option<int> {
        match parent {
            Some(p) => before(self.children(p), i),
            None => None,
        }
    }

    /// The child of node `i` with the given number, counted from zero.
    pub open spec fn child(self, i: int, n: int) -> Option<int> {
        let ks = self.children(i);
        if 0 <= n < ks.len() {
            Some(ks[n])
        } else {
            None
        }
    }

    /// The named child of node `i` with the given number, counted from zero.
    pub open spec fn named_child(self, i: int, n: int) -> Option<int> {
        let ks = self.named_children(i);
        if 0 <= n < ks.len() {
            Some(ks[n])
        } else {
            None
        }
    }
}

/// The item just before the first occurrence of `x` after the head of the list.
pub open spec fn before(ks: Seq<int>, x: int) -> Option<int>
    decreases ks.len(),
{
    if ks.len() < 2 {
        None
    } else if ks[1] == x {
        Some(ks[0])
    } else {
        before(ks.drop_first(), x)
    }
}

/// Nodes that stand side by side are nodes of the tree, within the range that they stand in.
pub proof fn lemma_siblings_range(t: TreeView, lo: int, hi: int)
    ensures
        forall|j: int| 0 <= j < t.siblings(lo, hi).len() ==> lo <= #[trigger] t.siblings(lo, hi)[j] < hi,
        forall|j: int| 0 <= j < t.siblings(lo, hi).len() ==> t.valid(#[trigger] t.siblings(lo, hi)[j]),
    decreases hi - lo,
{
    if t.fits(lo, hi) {
        lemma_siblings_range(t, t.last(lo), hi);
        let rest = t.siblings(t.last(lo), hi);
        assert forall|j: int| 0 <= j < t.siblings(lo, hi).len() implies lo <= #[trigger] t.siblings(lo, hi)[j] < hi && t.valid(t.siblings(lo, hi)[j]) by {
            if j > 0 {
                assert(t.siblings(lo, hi)[j] == rest[j - 1]);
            }
        }
    }
}

/// A list of indices as mathematical integers.
pub open spec fn ints(v: Seq<usize>) -> Seq<int> {
    v.map_values(|k: usize| k as int)
}

/// A syntax tree with its source text.
pub struct SyntaxTree {
    nodes: Vec<SyntaxNode>,
    src: Vec<char>,
    starts: Vec<usize>,
    spans: Vec<Option<(usize, usize)>>,
    firsts: Vec<Option<usize>>,
}

impl View for SyntaxTree {
    type V = TreeView;

    closed spec fn view(&self) -> TreeView {
        TreeView { rows: self.nodes@.map_values(|n: SyntaxNode| n@), src: self.src@ }
    }
}

impl SyntaxTree {
    #[verifier::type_invariant]
    spec fn well_formed(self) -> bool {
        &&& self.starts@.len() == self.src@.len() + 1
        &&& forall|k: int| 0 <= k <= self.src@.len() ==> #[trigger] self.starts@[k] == byte_len(self.src@.take(k))
        &&& self.spans@.len() == self.nodes@.len()
        &&& self.firsts@.len() == self.nodes@.len()
        &&& forall|i: int|
            0 <= i < self.nodes@.len() ==> first_holds(self.src@, self.nodes@[i]@, #[trigger] self.firsts@[i])
        &&& forall|i: int| 0 <= i < self.nodes@.len() ==> span_holds(self.src@, self.nodes@[i]@, #[trigger] self.spans@[i])
    }

    /// The tree of the given nodes, in preorder, over the given source text.
    pub fn new(nodes: Vec<SyntaxNode>, content: &str) -> (r: SyntaxTree)
        ensures
            r@.rows == nodes@.map_values(|n: SyntaxNode| n@),
            r@.src == content@,
    {
        let src = text::chars_of(content);
        let starts = byte_starts(content, &src);
        let mut spans: Vec<Option<(usize, usize)>> = Vec::new();
        let mut firsts: Vec<Option<usize>> = Vec::new();
        let mut i: usize = 0;
        while i < nodes.len()
            invariant
                0 <= i <= nodes@.len(),
                spans@.len() == i,
                firsts@.len() == i,
                forall|k: int| 0 <= k < i ==> first_holds(src@, nodes@[k]@, #[trigger] firsts@[k]),
                starts@.len() == src@.len() + 1,
                forall|k: int| 0 <= k <= src@.len() ==> #[trigger] starts@[k] == byte_len(src@.take(k)),
                forall|k: int| 0 <= k < i ==> span_holds(src@, nodes@[k]@, #[trigger] spans@[k]),
            decreases nodes@.len() - i,
        {
            let a = char_at_byte(&src, &starts, nodes[i].start_byte);
            let b = char_at_byte(&src, &starts, nodes[i].end_byte);
            let span = match (a, b) {
                (Some(x), Some(y)) => if x <= y {
                    Some((x, y))
                } else {
                    None
                },
                _ => None,
            };
            assert(span_holds(src@, nodes@[i as int]@, span));
            spans.push(span);
            firsts.push(a);
            i += 1;
        }
        SyntaxTree { nodes, src, starts, spans, firsts }
    }

    /// The nodes of a parsed file over its source text.
    pub fn of(tree: &tree_sitter::Tree, content: &str) -> (r: SyntaxTree)
        ensures
            r@ == (TreeView { rows: tree_rows(*tree), src: content@ }),
    {
        let n: usize = row_count(tree);
        let mut cursor = cursor_of(tree);
        let mut nodes: Vec<SyntaxNode> = Vec::new();
        let mut i: usize = 0;
        while i < n
            invariant
                0 <= i <= n,
                n == tree_rows(*tree).len(),
                cursor_rows(cursor) == tree_rows(*tree),
                nodes@.map_values(|n: SyntaxNode| n@) == tree_rows(*tree).take(i as int),
            decreases n - i,
        {
            let node = row_at(&mut cursor, i);
            let ghost before = nodes@;
            nodes.push(node);
            assert(nodes@.map_values(|n: SyntaxNode| n@) == before.map_values(|n: SyntaxNode| n@).push(node@));
            assert(tree_rows(*tree).take(i + 1) == tree_rows(*tree).take(i as int).push(node@));
            i += 1;
        }
        assert(tree_rows(*tree).take(n as int) == tree_rows(*tree));
        SyntaxTree::new(nodes, content)
    }

    /// The number of nodes.
    pub fn len(&self) -> (r: usize)
        ensures
            r == self@.rows.len(),
    {
        self.nodes.len()
    }

    /// The source text.
    pub fn source(&self) -> (r: &[char])
        ensures
            r@ == self@.src,
    {
        self.src.as_slice()
    }

    /// Whether node `i` is of the given kind.
    pub fn kind_is(&self, i: usize, kind: &str) -> (r: bool)
        requires
            self@.valid(i as int),
        ensures
            r == (self@.kind(i as int) == kind@),
    {
        text::same(self.nodes[i].kind, kind)
    }

    /// Whether the grammar names node `i`.
    pub fn named(&self, i: usize) -> (r: bool)
        requires
            self@.valid(i as int),
        ensures
            r == self@.named(i as int),
    {
        self.nodes[i].named
    }

    /// Node `i` as it was read.
    pub fn node(&self, i: usize) -> (r: SyntaxNode)
        requires
            self@.valid(i as int),
        ensures
            r@ == self@.rows[i as int],
    {
        self.nodes[i]
    }

    /// The line, counted from one, that node `i` starts on.
    pub fn line(&self, i: usize) -> (r: usize)
        requires
            self@.valid(i as int),
        ensures
            r == self@.line(i as int),
    {
        self.nodes[i].start_row.saturating_add(1)
    }

    /// The line, counted from one, that node `i` ends on.
    pub fn end_line(&self, i: usize) -> (r: usize)
        requires
            self@.valid(i as int),
        ensures
            r == self@.end_line(i as int),
    {
        self.nodes[i].end_row.saturating_add(1)
    }

    /// The index just after the subtree of node `i`, where that is in range.
    fn last(&self, i: usize) -> (r: Option<usize>)
        requires
            self@.valid(i as int),
        ensures
            r matches Some(k) ==> k == self@.last(i as int) && i <= k <= self@.rows.len(),
            r is None ==> self@.last(i as int) > self@.rows.len(),
    {
        let n: usize = self.nodes.len();
        let c: usize = self.nodes[i].count;
        if c > n - i {
            None
        } else {
            Some(i + c)
        }
    }

    /// The source text of node `i`.
    pub fn text(&self, i: usize) -> (r: Option<&[char]>)
        requires
            self@.valid(i as int),
        ensures
            text::opt_text(r) == self@.text(i as int),
    {
        proof {
            use_type_invariant(self);
            assert(span_holds(self.src@, self.nodes@[i as int]@, self.spans@[i as int]));
        }
        match self.spans[i] {
            Some((a, b)) => Some(slice_subrange(self.src.as_slice(), a, b)),
            None => None,
        }
    }

    /// The number of characters before the byte at offset `b` of the source.
    pub fn char_of_byte(&self, b: usize) -> (r: Option<usize>)
        ensures
            text::opt_int(r) == char_index(self@.src, b as int),
            r matches Some(k) ==> k <= self@.src.len(),
    {
        proof {
            use_type_invariant(self);
        }
        char_at_byte(&self.src, &self.starts, b)
    }

    /// The character at the byte where node `i` starts.
    pub fn first_char(&self, i: usize) -> (r: Option<char>)
        requires
            self@.valid(i as int),
        ensures
            r == self@.first_char(i as int),
    {
        proof {
            use_type_invariant(self);
            assert(first_holds(self.src@, self.nodes@[i as int]@, self.firsts@[i as int]));
        }
        match self.firsts[i] {
            Some(k) => if k < self.src.len() {
                Some(self.src[k])
            } else {
                None
            },
            None => None,
        }
    }

    /// The first line of the text of node `i`, trimmed.
    pub fn head(&self, i: usize) -> (r: Option<&[char]>)
        requires
            self@.valid(i as int),
        ensures
            text::opt_text(r) == self@.head(i as int),
    {
        match self.text(i) {
            Some(s) => match text::head_line(s) {
                Some(l) => Some(text::trimmed(l)),
                None => None,
            },
            None => None,
        }
    }
}

impl SyntaxTree {
    /// The roots of the subtrees that stand side by side from `lo` up to `hi`.
    fn siblings(&self, lo: usize, hi: usize) -> (r: Vec<usize>)
        requires
            hi <= self@.rows.len(),
        ensures
            ints(r@) == self@.siblings(lo as int, hi as int),
            forall|j: int| 0 <= j < r@.len() ==> self@.valid(#[trigger] r@[j] as int) && lo <= r@[j] < hi,
    {
        let mut out: Vec<usize> = Vec::new();
        let mut k: usize = lo;
        assert(ints(out@) + self@.siblings(k as int, hi as int) == self@.siblings(lo as int, hi as int));
        while k < hi
            invariant
                lo <= k,
                hi <= self@.rows.len(),
                ints(out@) + self@.siblings(k as int, hi as int) == self@.siblings(lo as int, hi as int),
            ensures
                !self@.fits(k as int, hi as int),
            decreases hi - k,
        {
            let end = match self.last(k) {
                Some(e) => if k < e && e <= hi {
                    e
                } else {
                    break;
                },
                None => {
                    break;
                },
            };
            let ghost before = out@;
            out.push(k);
            assert(ints(out@) == ints(before).push(k as int));
            assert(ints(before) + self@.siblings(k as int, hi as int) == ints(out@) + self@.siblings(
                end as int,
                hi as int,
            ));
            k = end;
        }
        proof {
            assert(ints(out@) + self@.siblings(k as int, hi as int) == ints(out@));
            lemma_siblings_range(self@, lo as int, hi as int);
            assert forall|j: int| 0 <= j < out@.len() implies self@.valid(#[trigger] out@[j] as int) && lo <= out@[j] < hi by {
                assert(ints(out@)[j] == out@[j] as int);
            }
        }
        out
    }

    /// The children of node `i`, in order.
    pub fn children(&self, i: usize) -> (r: Vec<usize>)
        requires
            self@.valid(i as int),
        ensures
            ints(r@) == self@.children(i as int),
            forall|j: int| 0 <= j < r@.len() ==> self@.valid(#[trigger] r@[j] as int) && i < r@[j] < self@.last(i as int),
    {
        match self.last(i) {
            Some(end) => if i < end {
                self.siblings(i + 1, end)
            } else {
                Vec::new()
            },
            None => Vec::new(),
        }
    }

    /// The children of node `i` that the grammar names.
    pub fn named_children(&self, i: usize) -> (r: Vec<usize>)
        requires
            self@.valid(i as int),
        ensures
            ints(r@) == self@.named_children(i as int),
            forall|j: int| 0 <= j < r@.len() ==> self@.valid(#[trigger] r@[j] as int) && i < r@[j] < self@.last(i as int),
    {
        let ks = self.children(i);
        let ghost keep = |k: int| self@.named(k);
        let mut out: Vec<usize> = Vec::new();
        let mut j: usize = 0;
        while j < ks.len()
            invariant
                0 <= j <= ks@.len(),
                forall|j: int| 0 <= j < ks@.len() ==> self@.valid(#[trigger] ks@[j] as int) && i < ks@[j] < self@.last(i as int),
                ints(out@) == ints(ks@).take(j as int).filter(keep),
                keep == |k: int| self@.named(k),
                forall|j: int| 0 <= j < out@.len() ==> self@.valid(#[trigger] out@[j] as int) && i < out@[j] < self@.last(i as int),
            decreases ks@.len() - j,
        {
            let k = ks[j];
            proof {
                lemma_filter_step(ints(ks@), j as int, keep);
            }
            if self.named(k) {
                let ghost before = out@;
                out.push(k);
                assert(ints(out@) == ints(before).push(k as int));
            }
            j += 1;
        }
        assert(ints(ks@).take(j as int) == ints(ks@));
        out
    }

    /// The children of node `i` that fill the field.
    pub fn field_children(&self, i: usize, name: &str) -> (r: Vec<usize>)
        requires
            self@.valid(i as int),
        ensures
            ints(r@) == self@.field_children(i as int, name@),
            forall|j: int| 0 <= j < r@.len() ==> self@.valid(#[trigger] r@[j] as int) && i < r@[j] < self@.last(i as int),
    {
        let ks = self.children(i);
        let ghost keep = |k: int| self@.rows[k].field == Some(name@);
        let mut out: Vec<usize> = Vec::new();
        let mut j: usize = 0;
        while j < ks.len()
            invariant
                0 <= j <= ks@.len(),
                forall|j: int| 0 <= j < ks@.len() ==> self@.valid(#[trigger] ks@[j] as int) && i < ks@[j] < self@.last(i as int),
                ints(out@) == ints(ks@).take(j as int).filter(keep),
                keep == |k: int| self@.rows[k].field == Some(name@),
                forall|j: int| 0 <= j < out@.len() ==> self@.valid(#[trigger] out@[j] as int) && i < out@[j] < self@.last(i as int),
            decreases ks@.len() - j,
        {
            let k = ks[j];
            proof {
                lemma_filter_step(ints(ks@), j as int, keep);
            }
            let node = self.node(k);
            let fills = match node.field {
                Some(f) => text::same(f, name),
                None => false,
            };
            assert(fills == keep(k as int));
            if fills {
                let ghost before = out@;
                out.push(k);
                assert(ints(out@) == ints(before).push(k as int));
            }
            j += 1;
        }
        assert(ints(ks@).take(j as int) == ints(ks@));
        out
    }

    /// The first child of node `i` that fills the field.
    pub fn field(&self, i: usize, name: &str) -> (r: Option<usize>)
        requires
            self@.valid(i as int),
        ensures
            text::opt_int(r) == self@.field(i as int, name@),
            r matches Some(k) ==> self@.valid(k as int) && i < k < self@.last(i as int),
    {
        let ks = self.field_children(i, name);
        assert(ints(ks@).len() == ks@.len());
        if ks.len() > 0 {
            assert(ints(ks@)[0] == ks@[0] as int);
            Some(ks[0])
        } else {
            None
        }
    }

    /// The text of the first child of node `i` that fills the field.
    pub fn field_text(&self, i: usize, name: &str) -> (r: Option<&[char]>)
        requires
            self@.valid(i as int),
        ensures
            text::opt_text(r) == self@.field_text(i as int, name@),
    {
        match self.field(i, name) {
            Some(k) => self.text(k),
            None => None,
        }
    }

    /// The first child of node `i` of the given kind.
    pub fn child_of_kind(&self, i: usize, kind: &str) -> (r: Option<usize>)
        requires
            self@.valid(i as int),
        ensures
            text::opt_int(r) == self@.child_of_kind(i as int, kind@),
            r matches Some(k) ==> self@.valid(k as int) && i < k < self@.last(i as int),
    {
        let ks = self.children(i);
        let ghost keep = |k: int| self@.kind(k) == kind@;
        let mut j: usize = 0;
        assert(ints(ks@).take(0).filter(keep).len() == 0) by {
            assert(ints(ks@).take(0) == Seq::<int>::empty());
            reveal(Seq::filter);
        }
        while j < ks.len()
            invariant
                0 <= j <= ks@.len(),
                forall|j: int| 0 <= j < ks@.len() ==> self@.valid(#[trigger] ks@[j] as int) && i < ks@[j] < self@.last(i as int),
                ints(ks@) == self@.children(i as int),
                ints(ks@).take(j as int).filter(keep).len() == 0,
                keep == |k: int| self@.kind(k) == kind@,
            decreases ks@.len() - j,
        {
            let k = ks[j];
            proof {
                lemma_filter_step(ints(ks@), j as int, keep);
            }
            if self.kind_is(k, kind) {
                proof {
                    lemma_filter_prefix(ints(ks@), j + 1, keep);
                    assert(ints(ks@).take(j + 1).filter(keep)[0] == k as int);
                }
                return Some(k);
            }
            j += 1;
        }
        assert(ints(ks@).take(j as int) == ints(ks@));
        None
    }

    /// The nodes of a list that are of the given kind.
    pub fn of_kind(&self, ks: &Vec<usize>, kind: &str) -> (r: Vec<usize>)
        requires
            forall|j: int| 0 <= j < ks@.len() ==> self@.valid(#[trigger] ks@[j] as int),
        ensures
            ints(r@) == self@.of_kind(ints(ks@), kind@),
            forall|j: int| 0 <= j < r@.len() ==> self@.valid(#[trigger] r@[j] as int),
    {
        let ghost keep = |k: int| self@.kind(k) == kind@;
        let mut out: Vec<usize> = Vec::new();
        let mut j: usize = 0;
        while j < ks.len()
            invariant
                0 <= j <= ks@.len(),
                forall|j: int| 0 <= j < ks@.len() ==> self@.valid(#[trigger] ks@[j] as int),
                ints(out@) == ints(ks@).take(j as int).filter(keep),
                keep == |k: int| self@.kind(k) == kind@,
                forall|j: int| 0 <= j < out@.len() ==> self@.valid(#[trigger] out@[j] as int),
            decreases ks@.len() - j,
        {
            let k = ks[j];
            proof {
                lemma_filter_step(ints(ks@), j as int, keep);
            }
            if self.kind_is(k, kind) {
                let ghost before = out@;
                out.push(k);
                assert(ints(out@) == ints(before).push(k as int));
            }
            j += 1;
        }
        assert(ints(ks@).take(j as int) == ints(ks@));
        out
    }

    /// The children of all nodes of a list, in order.
    pub fn below(&self, ks: &Vec<usize>) -> (r: Vec<usize>)
        requires
            forall|j: int| 0 <= j < ks@.len() ==> self@.valid(#[trigger] ks@[j] as int),
        ensures
            ints(r@) == self@.below(ints(ks@)),
            forall|j: int| 0 <= j < r@.len() ==> self@.valid(#[trigger] r@[j] as int),
    {
        let mut out: Vec<usize> = Vec::new();
        let mut j: usize = 0;
        while j < ks.len()
            invariant
                0 <= j <= ks@.len(),
                forall|j: int| 0 <= j < ks@.len() ==> self@.valid(#[trigger] ks@[j] as int),
                ints(out@) == self@.below(ints(ks@).take(j as int)),
                forall|j: int| 0 <= j < out@.len() ==> self@.valid(#[trigger] out@[j] as int),
            decreases ks@.len() - j,
        {
            let mut more = self.children(ks[j]);
            let ghost before = out@;
            let ghost added = more@;
            out.append(&mut more);
            proof {
                assert(ints(out@) == ints(before) + ints(added));
                assert(ints(ks@).take(j + 1).drop_last() == ints(ks@).take(j as int));
                assert(ints(ks@).take(j + 1).last() == ks@[j as int] as int);
                assert forall|m: int| 0 <= m < out@.len() implies self@.valid(#[trigger] out@[m] as int) by {
                    if m >= before.len() {
                        assert(out@[m] == added[m - before.len()]);
                    } else {
                        assert(out@[m] == before[m]);
                    }
                }
            }
            j += 1;
        }
        assert(ints(ks@).take(j as int) == ints(ks@));
        out
    }

    /// The children of the root.
    pub fn top(&self) -> (r: Vec<usize>)
        ensures
            ints(r@) == self@.children(0),
            forall|j: int| 0 <= j < r@.len() ==> self@.valid(#[trigger] r@[j] as int),
    {
        if self.nodes.len() == 0 {
            assert(!self@.fits(1, self@.last(0)));
            assert(ints(Seq::<usize>::empty()) == self@.children(0));
            return Vec::new();
        }
        self.children(0)
    }

    /// The sibling just before node `i`, whose parent is `parent`.
    pub fn previous(&self, parent: Option<usize>, i: usize) -> (r: Option<usize>)
        requires
            parent matches Some(p) ==> self@.valid(p as int),
        ensures
            text::opt_int(r) == self@.previous(text::opt_int(parent), i as int),
            r matches Some(k) ==> self@.valid(k as int),
    {
        let ks = match parent {
            Some(p) => self.children(p),
            None => return None,
        };
        let mut j: usize = 0;
        assert(ints(ks@).skip(0) == ints(ks@));
        while ks.len() >= 2 && j < ks.len() - 1
            invariant
                forall|j: int| 0 <= j < ks@.len() ==> self@.valid(#[trigger] ks@[j] as int),
                self@.previous(text::opt_int(parent), i as int) == before(ints(ks@).skip(j as int), i as int),
                j <= ks@.len(),
            decreases ks@.len() - j,
        {
            assert(ints(ks@).skip(j as int)[1] == ks@[j + 1] as int);
            assert(ints(ks@).skip(j as int)[0] == ks@[j as int] as int);
            if ks[j + 1] == i {
                return Some(ks[j]);
            }
            assert(ints(ks@).skip(j as int).drop_first() == ints(ks@).skip(j + 1));
            j += 1;
        }
        None
    }

    /// The child of node `i` with the given number, counted from zero.
    pub fn child(&self, i: usize, n: usize) -> (r: Option<usize>)
        requires
            self@.valid(i as int),
        ensures
            text::opt_int(r) == self@.child(i as int, n as int),
            r matches Some(k) ==> self@.valid(k as int) && i < k < self@.last(i as int),
    {
        let ks = self.children(i);
        assert(ints(ks@).len() == ks@.len());
        if n < ks.len() {
            assert(ints(ks@)[n as int] == ks@[n as int] as int);
            Some(ks[n])
        } else {
            None
        }
    }

    /// The named child of node `i` with the given number, counted from zero.
    pub fn named_child(&self, i: usize, n: usize) -> (r: Option<usize>)
        requires
            self@.valid(i as int),
        ensures
            text::opt_int(r) == self@.named_child(i as int, n as int),
            r matches Some(k) ==> self@.valid(k as int) && i < k < self@.last(i as int),
    {
        let ks = self.named_children(i);
        assert(ints(ks@).len() == ks@.len());
        if n < ks.len() {
            assert(ints(ks@)[n as int] == ks@[n as int] as int);
            Some(ks[n])
        } else {
            None
        }
    }
}

/// A prefix is the next shorter one and one item.
pub proof fn lemma_take_step<A>(s: Seq<A>, j: int)
    requires
        0 <= j < s.len(),
    ensures
        s.take(j + 1).drop_last() == s.take(j),
        s.take(j + 1).last() == s[j],
        s.take(j + 1).len() == j + 1,
{
    assert(s.take(j + 1).drop_last() == s.take(j));
}

/// A suffix is one item and the next shorter one.
pub proof fn lemma_skip_step<A>(s: Seq<A>, j: int)
    requires
        0 <= j < s.len(),
    ensures
        s.skip(j).drop_first() == s.skip(j + 1),
        s.skip(j)[0] == s[j],
        s.skip(j).len() == s.len() - j,
{
    assert(s.skip(j).drop_first() == s.skip(j + 1));
}

/// Filtering a longer prefix adds the next item where it is kept.
pub proof fn lemma_filter_step<A>(s: Seq<A>, j: int, keep: spec_fn(A) -> bool)
    requires
        0 <= j < s.len(),
    ensures
        s.take(j + 1).filter(keep) == if keep(s[j]) {
            s.take(j).filter(keep).push(s[j])
        } else {
            s.take(j).filter(keep)
        },
{
    reveal(Seq::filter);
    assert(s.take(j + 1).drop_last() == s.take(j));
    assert(s.take(j + 1).last() == s[j]);
}

/// What a filter keeps of a prefix starts what it keeps of the whole.
pub proof fn lemma_filter_prefix<A>(s: Seq<A>, j: int, keep: spec_fn(A) -> bool)
    requires
        0 <= j <= s.len(),
    ensures
        s.take(j).filter(keep).len() <= s.filter(keep).len(),
        forall|k: int| 0 <= k < s.take(j).filter(keep).len() ==> #[trigger] s.filter(keep)[k] == s.take(j).filter(keep)[k],
    decreases s.len() - j,
{
    if j == s.len() {
        assert(s.take(j) == s);
    } else {
        lemma_filter_prefix(s, j + 1, keep);
        lemma_filter_step(s, j, keep);
    }
}

/// What a walk does at one node of a syntax tree.
pub trait TreeRules: View {
    /// What a node hands down to its children.
    type Context: View;

    /// What the walk gathers.
    type Output: View;

    /// The output after node `i`, whose parent is `parent`, and what it hands
    /// down to its children, where they are visited.
    spec fn on_node(
        rules: <Self as View>::V,
        t: TreeView,
        parent: Option<int>,
        i: int,
        c: <Self::Context as View>::V,
        o: <Self::Output as View>::V,
    ) -> (<Self::Output as View>::V, Option<<Self::Context as View>::V>);

    fn visit(&self, t: &SyntaxTree, parent: Option<usize>, i: usize, c: &Self::Context, o: &mut Self::Output) -> (r: Option<Self::Context>)
        requires
            t@.valid(i as int),
            parent matches Some(p) ==> t@.valid(p as int),
        ensures
            final(o)@ == Self::on_node(self@, t@, text::opt_int(parent), i as int, c@, old(o)@).0,
            opt_view(r) == Self::on_node(self@, t@, text::opt_int(parent), i as int, c@, old(o)@).1,
    ;
}

/// An optional value by its view.
pub open spec fn opt_view<T: View>(o: Option<T>) -> Option<T::V> {
    match o {
        Some(x) => Some(x@),
        None => None,
    }
}

/// The output of a walk in preorder over the subtrees that stand side by side from
/// `lo` up to `hi`, `depth` levels down, that goes no deeper than `max`.
pub open spec fn walk<R: TreeRules>(
    r: <R as View>::V,
    t: TreeView,
    parent: Option<int>,
    lo: int,
    hi: int,
    depth: int,
    max: int,
    c: <R::Context as View>::V,
    o: <R::Output as View>::V,
) -> <R::Output as View>::V
    decreases hi - lo,
{
    if t.fits(lo, hi) {
        let (here, below) = R::on_node(r, t, parent, lo, c, o);
        let after = match below {
            Some(inner) => if depth < max {
                walk::<R>(r, t, Some(lo), lo + 1, t.last(lo), depth + 1, max, inner, here)
            } else {
                here
            },
            None => here,
        };
        walk::<R>(r, t, parent, t.last(lo), hi, depth, max, c, after)
    } else {
        o
    }
}

/// The output of a walk over the whole tree.
pub open spec fn walk_tree<R: TreeRules>(
    r: <R as View>::V,
    t: TreeView,
    max: int,
    c: <R::Context as View>::V,
    o: <R::Output as View>::V,
) -> <R::Output as View>::V {
    walk::<R>(r, t, None, 0, t.rows.len() as int, 0, max, c, o)
}

/// Whether each step of a walk keeps what holds of every context together with the output.
pub open spec fn keeps<R: TreeRules>(
    r: <R as View>::V,
    t: TreeView,
    holds: spec_fn(<R::Context as View>::V, <R::Output as View>::V) -> bool,
) -> bool {
    forall|
        parent: Option<int>,
        i: int,
        k: <R::Context as View>::V,
        c: <R::Context as View>::V,
        o: <R::Output as View>::V,
    |
        #![trigger holds(k, o), R::on_node(r, t, parent, i, c, o)]
        holds(k, o) && holds(c, o) ==> {
            let (after, below) = R::on_node(r, t, parent, i, c, o);
            holds(k, after) && (below matches Some(inner) ==> holds(inner, after))
        }
}

/// What every step of a walk keeps, the walk keeps.
pub proof fn lemma_walk_keeps<R: TreeRules>(
    r: <R as View>::V,
    t: TreeView,
    parent: Option<int>,
    lo: int,
    hi: int,
    depth: int,
    max: int,
    k: <R::Context as View>::V,
    c: <R::Context as View>::V,
    o: <R::Output as View>::V,
    holds: spec_fn(<R::Context as View>::V, <R::Output as View>::V) -> bool,
)
    requires
        keeps::<R>(r, t, holds),
        holds(k, o),
        holds(c, o),
    ensures
        holds(k, walk::<R>(r, t, parent, lo, hi, depth, max, c, o)),
    decreases hi - lo,
{
    if t.fits(lo, hi) {
        let (here, below) = R::on_node(r, t, parent, lo, c, o);
        assert(holds(k, here) && holds(c, here));
        let after = match below {
            Some(inner) => if depth < max {
                walk::<R>(r, t, Some(lo), lo + 1, t.last(lo), depth + 1, max, inner, here)
            } else {
                here
            },
            None => here,
        };
        if below is Some && depth < max {
            let inner = below->0;
            lemma_walk_keeps::<R>(r, t, Some(lo), lo + 1, t.last(lo), depth + 1, max, k, inner, here, holds);
            lemma_walk_keeps::<R>(r, t, Some(lo), lo + 1, t.last(lo), depth + 1, max, c, inner, here, holds);
        }
        lemma_walk_keeps::<R>(r, t, parent, t.last(lo), hi, depth, max, k, c, after, holds);
    }
}

/// Whether the subtrees of a tree lie within one another: each node has a subtree that ends in
/// the tree, and the subtree of a node in it ends in it too.
pub open spec fn nested(t: TreeView) -> bool {
    &&& forall|i: int| #[trigger] t.valid(i) ==> i < t.last(i) <= t.rows.len()
    &&& forall|i: int, j: int| #[trigger] t.valid(i) && i < j < t.last(i) ==> #[trigger] t.last(j) <= t.last(i)
}

/// How many nodes from `lo` on node `i` lies in.
pub open spec fn level_from(t: TreeView, lo: int, i: int) -> int
    decreases i - lo,
{
    if lo >= i {
        0
    } else {
        level_from(t, lo + 1, i) + if i < t.last(lo) {
            1int
        } else {
            0
        }
    }
}

/// How many nodes of the tree node `i` lies in.
pub open spec fn level(t: TreeView, i: int) -> int {
    level_from(t, 0, i)
}

/// Whether visiting node `i`, wherever it stands in a walk, makes a thing true of what the walk
/// gathers, visiting any other node keeps it true, and the nodes that node `i` lies in let the
/// walk go on below them.
pub open spec fn settles<R: TreeRules>(
    r: <R as View>::V,
    t: TreeView,
    i: int,
    seen: spec_fn(<R::Output as View>::V) -> bool,
) -> bool {
    &&& forall|parent: Option<int>, c: <R::Context as View>::V, o: <R::Output as View>::V|
        seen((#[trigger] R::on_node(r, t, parent, i, c, o)).0)
    &&& forall|parent: Option<int>, j: int, c: <R::Context as View>::V, o: <R::Output as View>::V|
        seen(o) ==> seen((#[trigger] R::on_node(r, t, parent, j, c, o)).0)
    &&& forall|parent: Option<int>, j: int, c: <R::Context as View>::V, o: <R::Output as View>::V|
        0 <= j < i < t.last(j) ==> (#[trigger] R::on_node(r, t, parent, j, c, o)).1 is Some
}

/// No node lies in less than none.
pub proof fn lemma_level_nonneg(t: TreeView, lo: int, i: int)
    ensures
        level_from(t, lo, i) >= 0,
    decreases i - lo,
{
    if lo < i {
        lemma_level_nonneg(t, lo + 1, i);
    }
}

/// Nodes that end before node `i` do not count for its level.
pub proof fn lemma_level_skips(t: TreeView, lo: int, mid: int, i: int)
    requires
        lo <= mid <= i,
        forall|j: int| lo <= j < mid ==> #[trigger] t.last(j) <= i,
    ensures
        level_from(t, lo, i) == level_from(t, mid, i),
    decreases mid - lo,
{
    if lo < mid {
        assert(t.last(lo) <= i);
        lemma_level_skips(t, lo + 1, mid, i);
    }
}

/// What visiting a node settles is settled by every walk that goes down to its level.
pub proof fn lemma_walk_settles<R: TreeRules>(
    r: <R as View>::V,
    t: TreeView,
    parent: Option<int>,
    lo: int,
    hi: int,
    depth: int,
    max: int,
    c: <R::Context as View>::V,
    o: <R::Output as View>::V,
    i: int,
    seen: spec_fn(<R::Output as View>::V) -> bool,
)
    requires
        nested(t),
        settles::<R>(r, t, i, seen),
        0 <= lo <= i < hi <= t.rows.len(),
        forall|j: int| lo <= j < hi ==> #[trigger] t.last(j) <= hi,
        depth + level_from(t, lo, i) <= max,
    ensures
        seen(walk::<R>(r, t, parent, lo, hi, depth, max, c, o)),
    decreases hi - lo,
{
    assert(t.valid(lo));
    assert(t.last(lo) <= hi);
    let last = t.last(lo);
    let (here, below) = R::on_node(r, t, parent, lo, c, o);
    let after = match below {
        Some(inner) => if depth < max {
            walk::<R>(r, t, Some(lo), lo + 1, last, depth + 1, max, inner, here)
        } else {
            here
        },
        None => here,
    };
    let keep = |k: <R::Context as View>::V, x: <R::Output as View>::V| seen(x);
    assert(keeps::<R>(r, t, keep));
    lemma_level_nonneg(t, lo + 1, i);
    if i < last {
        if i == lo {
            assert(seen(here));
            if below is Some && depth < max {
                lemma_walk_keeps::<R>(r, t, Some(lo), lo + 1, last, depth + 1, max, below->0, below->0, here, keep);
            }
        } else {
            assert(below is Some);
            assert forall|j: int| lo + 1 <= j < last implies #[trigger] t.last(j) <= last by {}
            lemma_walk_settles::<R>(r, t, Some(lo), lo + 1, last, depth + 1, max, below->0, here, i, seen);
        }
        assert(seen(after));
        assert(keep(c, after));
        lemma_walk_keeps::<R>(r, t, parent, last, hi, depth, max, c, c, after, keep);
    } else {
        assert forall|j: int| lo <= j < last implies #[trigger] t.last(j) <= i by {
            if j > lo {
                assert(t.last(j) <= t.last(lo));
            }
        }
        lemma_level_skips(t, lo, last, i);
        lemma_walk_settles::<R>(r, t, parent, last, hi, depth, max, c, after, i, seen);
    }
}

/// What visiting a node settles is settled by every walk over the whole tree that goes down to
/// its level.
pub proof fn law_walks_reach_every_node<R: TreeRules>(
    r: <R as View>::V,
    t: TreeView,
    max: int,
    c: <R::Context as View>::V,
    o: <R::Output as View>::V,
    i: int,
    seen: spec_fn(<R::Output as View>::V) -> bool,
)
    requires
        nested(t),
        t.valid(i),
        level(t, i) <= max,
        settles::<R>(r, t, i, seen),
    ensures
        seen(walk_tree::<R>(r, t, max, c, o)),
{
    assert forall|j: int| 0 <= j < t.rows.len() implies #[trigger] t.last(j) <= t.rows.len() by {
        assert(t.valid(j));
    }
    lemma_walk_settles::<R>(r, t, None, 0, t.rows.len() as int, 0, max, c, o, i, seen);
}

/// The output of a walk over the subtree of node `i`.
pub open spec fn walk_node<R: TreeRules>(
    r: <R as View>::V,
    t: TreeView,
    i: int,
    max: int,
    c: <R::Context as View>::V,
    o: <R::Output as View>::V,
) -> <R::Output as View>::V {
    walk::<R>(r, t, None, i, t.last(i), 0, max, c, o)
}

/// Walks in preorder over the subtrees that stand side by side from `lo` up to `hi`.
fn run<R: TreeRules>(
    r: &R,
    t: &SyntaxTree,
    parent: Option<usize>,
    lo: usize,
    hi: usize,
    depth: usize,
    max: usize,
    c: &R::Context,
    o: &mut R::Output,
)
    requires
        hi <= t@.rows.len(),
        parent matches Some(p) ==> t@.valid(p as int),
        depth <= max,
    ensures
        final(o)@ == walk::<R>(r@, t@, text::opt_int(parent), lo as int, hi as int, depth as int, max as int, c@, old(o)@),
    decreases hi - lo,
{
    let ghost p = text::opt_int(parent);
    let ghost start = o@;
    let mut k: usize = lo;
    while k < hi
        invariant
            lo <= k,
            hi <= t@.rows.len(),
            depth <= max,
            p == text::opt_int(parent),
            parent matches Some(p) ==> t@.valid(p as int),
            walk::<R>(r@, t@, p, k as int, hi as int, depth as int, max as int, c@, o@) == walk::<R>(
                r@,
                t@,
                p,
                lo as int,
                hi as int,
                depth as int,
                max as int,
                c@,
                start,
            ),
        ensures
            !t@.fits(k as int, hi as int),
        decreases hi - k,
    {
        let end = match t.last(k) {
            Some(e) => if k < e && e <= hi {
                e
            } else {
                break;
            },
            None => {
                break;
            },
        };
        let below = r.visit(t, parent, k, c, o);
        match below {
            Some(inner) => if depth < max {
                run(r, t, Some(k), k + 1, end, depth + 1, max, &inner, o);
            },
            None => {},
        }
        k = end;
    }
}

/// Walks in preorder over the whole tree.
pub fn run_tree<R: TreeRules>(r: &R, t: &SyntaxTree, max: usize, c: &R::Context, o: &mut R::Output)
    ensures
        final(o)@ == walk_tree::<R>(r@, t@, max as int, c@, old(o)@),
{
    run(r, t, None, 0, t.len(), 0, max, c, o);
}

/// Walks in preorder over the subtree of node `i`.
pub fn run_node<R: TreeRules>(r: &R, t: &SyntaxTree, i: usize, max: usize, c: &R::Context, o: &mut R::Output)
    requires
        t@.valid(i as int),
    ensures
        final(o)@ == walk_node::<R>(r@, t@, i as int, max as int, c@, old(o)@),
{
    match t.last(i) {
        Some(end) => {
            run(r, t, None, i, end, 0, max, c, o);
        },
        None => {},
    }
}

/// Whether a position is that of the byte where the node starts.
spec fn first_holds(src: Seq<char>, row: NodeRow, first: Option<usize>) -> bool {
    text::opt_int(first) == char_index(src, row.start_byte) && (first matches Some(k) ==> k <= src.len())
}

/// Whether a span of characters is that of the node's bytes.
spec fn span_holds(src: Seq<char>, row: NodeRow, span: Option<(usize, usize)>) -> bool {
    match span {
        Some((a, b)) => {
            &&& a <= b <= src.len()
            &&& byte_slice(src, row.start_byte, row.end_byte) == Some(src.subrange(a as int, b as int))
        },
        None => byte_slice(src, row.start_byte, row.end_byte) is None,
    }
}

} // verus!
