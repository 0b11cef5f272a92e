use vstd::prelude::*;

verus! {

#[derive(Clone, Copy, Debug, PartialEq, Eq, Structural)]
pub enum TokenKind {
    /// A run of letters, digits and underscores: identifiers, keywords and
    /// numbers.
    Ident,
    Whitespace,
    Comment,
    ColonColon,
    LBrace,
    RBrace,
    LParen,
    RParen,
    LBracket,
    RBracket,
    Comma,
    Semi,
    Star,
    Hash,
    /// A string literal, or any other single character.
    Other,
}

/// A token: its kind and its character range in the text.
#[derive(Clone, Copy, Debug, PartialEq, Eq, Structural)]
pub struct Token {
    pub kind: TokenKind,
    pub start: usize,
    pub end: usize,
}

/// The tokens are non-empty, contiguous, and cover `0..n` exactly.
pub open spec fn tokens_cover(toks: Seq<Token>, n: int) -> bool {
    &&& (toks.len() == 0 <==> n == 0)
    &&& toks.len() > 0 ==> toks[0].start == 0 && toks.last().end == n
    &&& forall|i: int| 0 <= i < toks.len() ==> #[trigger] toks[i].start < toks[i].end
    &&& forall|i: int| 0 <= i < toks.len() - 1 ==> #[trigger] toks[i].end == toks[i + 1].start
}

pub open spec fn is_word_char(c: char) -> bool {
    ('a' <= c && c <= 'z') || ('A' <= c && c <= 'Z') || ('0' <= c && c <= '9') || c == '_'
}

pub open spec fn is_space(c: char) -> bool {
    c == ' ' || c == '\t' || c == '\n' || c == '\r'
}

fn word_char(c: char) -> (r: bool)
    ensures
        r == is_word_char(c),
{
    ('a' <= c && c <= 'z') || ('A' <= c && c <= 'Z') || ('0' <= c && c <= '9') || c == '_'
}

fn space(c: char) -> (r: bool)
    ensures
        r == is_space(c),
{
    c == ' ' || c == '\t' || c == '\n' || c == '\r'
}

/// The characters of `s`.
pub fn chars_of(s: &str) -> (r: Vec<char>)
    ensures
        r@ == s@,
{
    let n = s.unicode_len();
    let mut r: Vec<char> = Vec::new();
    let mut i: usize = 0;
    while i < n
        invariant
            n == s@.len(),
            i <= n,
            r@ == s@.subrange(0, i as int),
        decreases n - i,
    {
        r.push(s.get_char(i));
        i = i + 1;
        assert(r@ =~= s@.subrange(0, i as int));
    }
    assert(s@.subrange(0, n as int) =~= s@);
    r
}

/// End of the run of word characters from `j`.
pub open spec fn word_end(text: Seq<char>, j: int) -> int
    decreases text.len() - j,
{
    if 0 <= j < text.len() && is_word_char(text[j]) {
        word_end(text, j + 1)
    } else {
        j
    }
}

/// End of the run of spaces from `j`.
pub open spec fn space_end(text: Seq<char>, j: int) -> int
    decreases text.len() - j,
{
    if 0 <= j < text.len() && is_space(text[j]) {
        space_end(text, j + 1)
    } else {
        j
    }
}

/// Position of the first line break at or after `j`, or the end.
pub open spec fn line_end(text: Seq<char>, j: int) -> int
    decreases text.len() - j,
{
    if 0 <= j < text.len() && text[j] != '\n' {
        line_end(text, j + 1)
    } else {
        j
    }
}

/// Position of the `/` that closes a block comment opened at `i`, searching
/// from `j`, or the end.
pub open spec fn block_stop(text: Seq<char>, i: int, j: int) -> int
    decreases text.len() - j,
{
    if 1 <= j < text.len() && !(text[j] == '/' && text[j - 1] == '*' && j >= i + 3) {
        block_stop(text, i, j + 1)
    } else {
        j
    }
}

/// Position of the `"` that closes a string literal, searching from `j`
/// and stepping over escapes, or the end.
pub open spec fn string_stop(text: Seq<char>, j: int) -> int
    decreases text.len() - j,
{
    if 0 <= j < text.len() && text[j] != '"' {
        if text[j] == '\\' && j + 1 < text.len() {
            string_stop(text, j + 2)
        } else {
            string_stop(text, j + 1)
        }
    } else {
        j
    }
}

/// The kind of a one-character token.
pub open spec fn punct_kind(c: char) -> TokenKind {
    if c == '{' {
        TokenKind::LBrace
    } else if c == '}' {
        TokenKind::RBrace
    } else if c == '(' {
        TokenKind::LParen
    } else if c == ')' {
        TokenKind::RParen
    } else if c == '[' {
        TokenKind::LBracket
    } else if c == ']' {
        TokenKind::RBracket
    } else if c == ',' {
        TokenKind::Comma
    } else if c == ';' {
        TokenKind::Semi
    } else if c == '*' {
        TokenKind::Star
    } else if c == '#' {
        TokenKind::Hash
    } else {
        TokenKind::Other
    }
}

/// The kind and end of the token that starts at `i`: a run of word
/// characters or spaces, a line or block comment, a string literal, `::`, or
/// one character.
pub open spec fn spec_scan(text: Seq<char>, i: int) -> (TokenKind, int) {
    let n = text.len();
    let c = text[i];
    if is_word_char(c) {
        (TokenKind::Ident, word_end(text, i + 1))
    } else if is_space(c) {
        (TokenKind::Whitespace, space_end(text, i + 1))
    } else if c == '/' && i + 1 < n && text[i + 1] == '/' {
        (TokenKind::Comment, line_end(text, i + 2))
    } else if c == '/' && i + 1 < n && text[i + 1] == '*' {
        let j = block_stop(text, i, i + 2);
        (TokenKind::Comment, if j < n {
            j + 1
        } else {
            j
        })
    } else if c == '"' {
        let j = string_stop(text, i + 1);
        (TokenKind::Other, if j < n {
            j + 1
        } else {
            j
        })
    } else if c == ':' && i + 1 < n && text[i + 1] == ':' {
        (TokenKind::ColonColon, i + 2)
    } else {
        (punct_kind(c), i + 1)
    }
}

/// The tokens of `text` from position `i` on.
pub open spec fn lex_from(text: Seq<char>, i: int) -> Seq<Token>
    decreases text.len() - i,
{
    if i < 0 || i >= text.len() {
        Seq::empty()
    } else {
        let (k, e) = spec_scan(text, i);
        if e <= i || e > text.len() {
            Seq::empty()
        } else {
            seq![Token { kind: k, start: i as usize, end: e as usize }] + lex_from(text, e)
        }
    }
}

/// The tokens of `text`.
pub open spec fn spec_tokens(text: Seq<char>) -> Seq<Token> {
    lex_from(text, 0)
}

/// End of the token that starts at `i`, and its kind.
fn scan_token(text: &Vec<char>, i: usize) -> (r: (TokenKind, usize))
    requires
        i < text@.len(),
    ensures
        i < r.1 <= text@.len(),
        (r.0, r.1 as int) == spec_scan(text@, i as int),
        r.0 == TokenKind::Comma ==> r.1 == i + 1 && text@[i as int] == ',',
        r.0 == TokenKind::RParen ==> r.1 == i + 1 && text@[i as int] == ')',
        r.0 == TokenKind::Ident ==> forall|j: int| i <= j < r.1 ==> is_word_char(#[trigger] text@[j]),
        r.0 == TokenKind::Whitespace ==> forall|j: int| i <= j < r.1 ==> is_space(#[trigger] text@[j]),
{
    let n = text.len();
    let c = text[i];
    if word_char(c) {
        let mut j = i + 1;
        while j < n && word_char(text[j])
            invariant
                i < j <= n,
                n == text@.len(),
                forall|k: int| i <= k < j ==> is_word_char(#[trigger] text@[k]),
                word_end(text@, j as int) == word_end(text@, i + 1),
            decreases n - j,
        {
            j = j + 1;
        }
        return (TokenKind::Ident, j);
    }
    if space(c) {
        let mut j = i + 1;
        while j < n && space(text[j])
            invariant
                i < j <= n,
                n == text@.len(),
                forall|k: int| i <= k < j ==> is_space(#[trigger] text@[k]),
                space_end(text@, j as int) == space_end(text@, i + 1),
            decreases n - j,
        {
            j = j + 1;
        }
        return (TokenKind::Whitespace, j);
    }
    if c == '/' && i + 1 < n && text[i + 1] == '/' {
        let mut j = i + 2;
        while j < n && text[j] != '\n'
            invariant
                i < j <= n,
                n == text@.len(),
                line_end(text@, j as int) == line_end(text@, i + 2),
            decreases n - j,
        {
            j = j + 1;
        }
        return (TokenKind::Comment, j);
    }
    if c == '/' && i + 1 < n && text[i + 1] == '*' {
        let mut j = i + 2;
        while j < n && !(text[j] == '/' && text[j - 1] == '*' && j >= i + 3)
            invariant
                i + 2 <= j <= n,
                n == text@.len(),
                block_stop(text@, i as int, j as int) == block_stop(text@, i as int, i + 2),
            decreases n - j,
        {
            j = j + 1;
        }
        if j < n {
            j = j + 1;
        }
        return (TokenKind::Comment, j);
    }
    if c == '"' {
        let mut j = i + 1;
        while j < n && text[j] != '"'
            invariant
                i < j <= n,
                n == text@.len(),
                string_stop(text@, j as int) == string_stop(text@, i + 1),
            decreases n - j,
        {
            if text[j] == '\\' && j + 1 < n {
                j = j + 1;
            }
            j = j + 1;
        }
        if j < n {
            j = j + 1;
        }
        return (TokenKind::Other, j);
    }
    if c == ':' && i + 1 < n && text[i + 1] == ':' {
        return (TokenKind::ColonColon, i + 2);
    }
    let kind = if c == '{' {
        TokenKind::LBrace
    } else if c == '}' {
        TokenKind::RBrace
    } else if c == '(' {
        TokenKind::LParen
    } else if c == ')' {
        TokenKind::RParen
    } else if c == '[' {
        TokenKind::LBracket
    } else if c == ']' {
        TokenKind::RBracket
    } else if c == ',' {
        TokenKind::Comma
    } else if c == ';' {
        TokenKind::Semi
    } else if c == '*' {
        TokenKind::Star
    } else if c == '#' {
        TokenKind::Hash
    } else {
        TokenKind::Other
    };
    (kind, i + 1)
}

/// Splits `text` into tokens.
pub fn tokenize(text: &Vec<char>) -> (r: Vec<Token>)
    ensures
        r@ == spec_tokens(text@),
        tokens_cover(r@, text@.len() as int),
        forall|i: int|
            0 <= i < r@.len() && (#[trigger] r@[i]).kind == TokenKind::Comma ==> r@[i].end == r@[i].start + 1
                && text@[r@[i].start as int] == ',',
        forall|i: int|
            0 <= i < r@.len() && (#[trigger] r@[i]).kind == TokenKind::RParen ==> r@[i].end == r@[i].start + 1
                && text@[r@[i].start as int] == ')',
        forall|i: int|
            0 <= i < r@.len() && (#[trigger] r@[i]).kind == TokenKind::Ident ==> forall|j: int|
                r@[i].start <= j < r@[i].end ==> is_word_char(#[trigger] text@[j]),
{
    let n = text.len();
    let mut toks: Vec<Token> = Vec::new();
    let mut i: usize = 0;
    while i < n
        invariant
            n == text@.len(),
            i <= n,
            toks@ + lex_from(text@, i as int) == spec_tokens(text@),
            i == 0 <==> toks@.len() == 0,
            toks@.len() > 0 ==> toks@[0].start == 0 && toks@.last().end == i,
            forall|k: int| 0 <= k < toks@.len() ==> #[trigger] toks@[k].start < toks@[k].end,
            forall|k: int| 0 <= k < toks@.len() - 1 ==> #[trigger] toks@[k].end == toks@[k + 1].start,
            forall|k: int|
                0 <= k < toks@.len() && (#[trigger] toks@[k]).kind == TokenKind::Ident ==> forall|j: int|
                    toks@[k].start <= j < toks@[k].end ==> is_word_char(#[trigger] text@[j]),
            forall|k: int|
                0 <= k < toks@.len() && (#[trigger] toks@[k]).kind == TokenKind::Comma ==> toks@[k].end == toks@[k].start
                    + 1 && text@[toks@[k].start as int] == ',',
            forall|k: int|
                0 <= k < toks@.len() && (#[trigger] toks@[k]).kind == TokenKind::RParen ==> toks@[k].end
                    == toks@[k].start + 1 && text@[toks@[k].start as int] == ')',
        decreases n - i,
    {
        let (kind, end) = scan_token(text, i);
        let ghost before = toks@;
        toks.push(Token { kind, start: i, end });
        assert(lex_from(text@, i as int) == seq![Token { kind, start: i, end }] + lex_from(text@, end as int));
        assert(before + lex_from(text@, i as int) =~= toks@ + lex_from(text@, end as int));
        i = end;
    }
    toks
}

/// Whether the characters `start..end` of `text` spell `word`.
pub fn text_is(text: &Vec<char>, start: usize, end: usize, word: &str) -> (r: bool)
    requires
        start <= end <= text@.len(),
    ensures
        r == (text@.subrange(start as int, end as int) == word@),
{
    let n = word.unicode_len();
    if end - start != n {
        proof {
            assert(text@.subrange(start as int, end as int).len() != word@.len());
        }
        return false;
    }
    let mut i: usize = 0;
    while i < n
        invariant
            n == word@.len(),
            end - start == n,
            start <= end <= text@.len(),
            i <= n,
            forall|k: int| 0 <= k < i ==> text@[start + k] == #[trigger] word@[k],
        decreases n - i,
    {
        if text[start + i] != word.get_char(i) {
            assert(text@.subrange(start as int, end as int)[i as int] != word@[i as int]);
            return false;
        }
        i = i + 1;
    }
    assert(text@.subrange(start as int, end as int) =~= word@);
    true
}

/// Index of the first token at or after `i` that is neither whitespace nor
/// a comment; `toks.len()` if there is none.
pub fn skip_trivia(toks: &Vec<Token>, i: usize) -> (r: usize)
    requires
        i <= toks@.len(),
    ensures
        i <= r <= toks@.len(),
        forall|k: int| i <= k < r ==> (#[trigger] toks@[k]).kind == TokenKind::Whitespace || toks@[k].kind == TokenKind::Comment,
        r < toks@.len() ==> toks@[r as int].kind != TokenKind::Whitespace && toks@[r as int].kind != TokenKind::Comment,
{
    let mut j = i;
    while j < toks.len() && (toks[j].kind == TokenKind::Whitespace || toks[j].kind == TokenKind::Comment)
        invariant
            i <= j <= toks@.len(),
            forall|k: int| i <= k < j ==> (#[trigger] toks@[k]).kind == TokenKind::Whitespace || toks@[k].kind == TokenKind::Comment,
        decreases toks@.len() - j,
    {
        j = j + 1;
    }
    j
}

#[derive(Clone, Copy, Debug, PartialEq, Eq, Structural)]
pub enum SegmentKind {
    Name,
    SelfKw,
    SuperKw,
    CrateKw,
}

/// One segment of a path: its kind and its character range.
#[derive(Clone, Copy, Debug, PartialEq, Eq, Structural)]
pub struct PathSegment {
    pub kind: SegmentKind,
    pub start: usize,
    pub end: usize,
}

/// One use tree: `path`, `path::{...}`, `path::*`, `path as alias` or `{...}`.
/// Nested trees are stored in the same arena, after their parent.
pub struct UseTreeNode {
    /// The path; empty when the tree has none.
    pub path: Vec<PathSegment>,
    /// The range of the alias name.
    pub alias: Option<(usize, usize)>,
    /// Arena indices of the trees of the nested list.
    pub list: Option<Vec<usize>>,
    /// End of the comma that follows the last tree of the list, if any.
    pub comma_after_last: Option<usize>,
    pub start: usize,
    pub end: usize,
}

/// A `use` item at the top level of a file.
#[derive(Clone, Copy, Debug, PartialEq, Eq, Structural)]
pub struct UseItem {
    /// Arena index of its use tree.
    pub tree: Option<usize>,
    pub start: usize,
    pub end: usize,
}

pub open spec fn segment_fits(s: PathSegment, n: int) -> bool {
    s.start < s.end <= n
}

/// Every node's ranges lie within a text of length `n`, and nested trees
/// come after their parent in the arena.
#[verifier::opaque]
pub open spec fn arena_wf(trees: Seq<UseTreeNode>, n: int) -> bool {
    forall|i: int|
        0 <= i < trees.len() ==> {
            let t = #[trigger] trees[i];
            &&& t.start <= t.end <= n
            &&& forall|k: int| 0 <= k < t.path@.len() ==> #[trigger] segment_fits(t.path@[k], n)
            &&& (t.alias matches Some(a) ==> a.0 <= a.1 <= n)
            &&& (t.comma_after_last matches Some(c) ==> c <= n)
            &&& (t.list matches Some(l) ==> forall|k: int|
                0 <= k < l@.len() ==> i < #[trigger] l@[k] < trees.len())
        }
}

pub fn segment_kind(text: &Vec<char>, start: usize, end: usize) -> (r: SegmentKind)
    requires
        start <= end <= text@.len(),
{
    if text_is(text, start, end, "self") {
        SegmentKind::SelfKw
    } else if text_is(text, start, end, "super") {
        SegmentKind::SuperKw
    } else if text_is(text, start, end, "crate") {
        SegmentKind::CrateKw
    } else {
        SegmentKind::Name
    }
}

fn is_token(toks: &Vec<Token>, i: usize, kind: TokenKind) -> (r: bool)
    ensures
        r == (i < toks@.len() && toks@[i as int].kind == kind),
{
    i < toks.len() && toks[i].kind == kind
}

/// Parses `seg (:: seg)*` from token `i`, an identifier; stops before a
/// `::` that is not followed by a segment. Returns the segments and the index
/// after the last one.
fn parse_path(text: &Vec<char>, toks: &Vec<Token>, i: usize) -> (r: (Vec<PathSegment>, usize))
    requires
        tokens_cover(toks@, text@.len() as int),
        i < toks@.len(),
        toks@[i as int].kind == TokenKind::Ident,
    ensures
        i < r.1 <= toks@.len(),
        r.0@.len() > 0,
        forall|k: int| 0 <= k < r.0@.len() ==> #[trigger] segment_fits(r.0@[k], text@.len() as int),
        r.0@.last().end == toks@[r.1 - 1].end,
{
    let len = toks.len();
    let mut segs: Vec<PathSegment> = Vec::new();
    let t = toks[i];
    proof {
        lemma_token_in_text(toks@, text@.len() as int, i as int);
    }
    segs.push(PathSegment { kind: segment_kind(text, t.start, t.end), start: t.start, end: t.end });
    let mut j = i + 1;
    loop
        invariant
            tokens_cover(toks@, text@.len() as int),
            len == toks@.len(),
            i < j <= toks@.len(),
            segs@.len() > 0,
            forall|k: int| 0 <= k < segs@.len() ==> #[trigger] segment_fits(segs@[k], text@.len() as int),
            segs@.last().end == toks@[j - 1].end,
        decreases toks@.len() - j,
    {
        let k = skip_trivia(toks, j);
        if !is_token(toks, k, TokenKind::ColonColon) {
            break;
        }
        let m = skip_trivia(toks, k + 1);
        if !is_token(toks, m, TokenKind::Ident) {
            break;
        }
        let t = toks[m];
        proof {
            lemma_token_in_text(toks@, text@.len() as int, m as int);
        }
        segs.push(PathSegment { kind: segment_kind(text, t.start, t.end), start: t.start, end: t.end });
        j = m + 1;
    }
    (segs, j)
}

/// Tokens lie within the text.
pub proof fn lemma_token_in_text(toks: Seq<Token>, n: int, i: int)
    requires
        tokens_cover(toks, n),
        0 <= i < toks.len(),
    ensures
        0 <= toks[i].start < toks[i].end <= n,
    decreases toks.len() - i,
{
    if i < toks.len() - 1 {
        lemma_token_in_text(toks, n, i + 1);
    }
}

/// Appends a childless node at `start` to the arena.
fn arena_push(trees: &mut Vec<UseTreeNode>, start: usize, n: usize) -> (idx: usize)
    requires
        arena_wf(old(trees)@, n as int),
        start <= n,
    ensures
        arena_wf(final(trees)@, n as int),
        idx == old(trees)@.len(),
        final(trees)@.len() == old(trees)@.len() + 1,
{
    reveal(arena_wf);
    let idx = trees.len();
    trees.push(UseTreeNode { path: Vec::new(), alias: None, list: None, comma_after_last: None, start, end: start });
    assert forall|q: int| 0 <= q < trees@.len() implies {
        let t = #[trigger] trees@[q];
        &&& t.start <= t.end <= n
        &&& forall|k: int| 0 <= k < t.path@.len() ==> #[trigger] segment_fits(t.path@[k], n as int)
        &&& (t.alias matches Some(a) ==> a.0 <= a.1 <= n)
        &&& (t.comma_after_last matches Some(c) ==> c <= n)
        &&& (t.list matches Some(l) ==> forall|k: int| 0 <= k < l@.len() ==> q < #[trigger] l@[k] < trees@.len())
    } by {
        if q < idx {
            assert(trees@[q] == old(trees)@[q]);
        }
    }
    idx
}

/// Replaces the node at `idx`.
fn arena_set(trees: &mut Vec<UseTreeNode>, idx: usize, node: UseTreeNode, n: usize)
    requires
        arena_wf(old(trees)@, n as int),
        idx < old(trees)@.len(),
        node.start <= node.end <= n,
        forall|k: int| 0 <= k < node.path@.len() ==> #[trigger] segment_fits(node.path@[k], n as int),
        node.alias matches Some(a) ==> a.0 <= a.1 <= n,
        node.comma_after_last matches Some(c) ==> c <= n,
        node.list matches Some(l) ==> forall|k: int| 0 <= k < l@.len() ==> idx < #[trigger] l@[k] < old(trees)@.len(),
    ensures
        arena_wf(final(trees)@, n as int),
        final(trees)@.len() == old(trees)@.len(),
{
    reveal(arena_wf);
    trees.set(idx, node);
    assert forall|q: int| 0 <= q < trees@.len() implies {
        let t = #[trigger] trees@[q];
        &&& t.start <= t.end <= n
        &&& forall|k: int| 0 <= k < t.path@.len() ==> #[trigger] segment_fits(t.path@[k], n as int)
        &&& (t.alias matches Some(a) ==> a.0 <= a.1 <= n)
        &&& (t.comma_after_last matches Some(c) ==> c <= n)
        &&& (t.list matches Some(l) ==> forall|k: int| 0 <= k < l@.len() ==> q < #[trigger] l@[k] < trees@.len())
    } by {
        if q != idx {
            assert(trees@[q] == old(trees)@[q]);
        }
    }
}

/// Parses a use tree from token `i` (after trivia), storing it and its
/// nested trees in `trees`. Returns its arena index and the index of the
/// token after it; `None` when no tree starts there.
pub fn parse_use_tree(text: &Vec<char>, toks: &Vec<Token>, i: usize, trees: &mut Vec<UseTreeNode>) -> (r: Option<(usize, usize)>)
    requires
        tokens_cover(toks@, text@.len() as int),
        i <= toks@.len(),
        arena_wf(old(trees)@, text@.len() as int),
    ensures
        arena_wf(final(trees)@, text@.len() as int),
        final(trees)@.len() >= old(trees)@.len(),
        r matches Some((idx, next)) ==> idx == old(trees)@.len() && i < next <= toks@.len()
            && idx < final(trees)@.len(),
    decreases toks@.len() - i, 2int, 0int,
{
    let n = text.len();
    let len = toks.len();
    let first = skip_trivia(toks, i);
    if first >= len {
        return None;
    }
    let mut j = first;
    if toks[j].kind == TokenKind::ColonColon {
        j = skip_trivia(toks, j + 1);
    }
    if j >= len {
        return None;
    }
    proof {
        lemma_token_in_text(toks@, n as int, first as int);
        lemma_token_in_text(toks@, n as int, j as int);
    }
    let has_path = toks[j].kind == TokenKind::Ident && !text_is(text, toks[j].start, toks[j].end, "as");
    if !has_path && toks[j].kind != TokenKind::LBrace && toks[j].kind != TokenKind::Star {
        return None;
    }
    let start = toks[first].start;
    let idx = arena_push(trees, start, n);
    if !has_path {
        let (list, comma, end, next) = parse_tree_end(text, toks, first, j, trees, idx);
        arena_set(trees, idx, UseTreeNode { path: Vec::new(), alias: None, list, comma_after_last: comma, start, end }, n);
        return Some((idx, next));
    }
    let (path, after) = parse_path(text, toks, j);
    proof {
        lemma_token_in_text(toks@, n as int, after - 1);
        lemma_token_order(toks@, n as int, first as int, after - 1);
    }
    let (alias, list, comma, end, next) = parse_after_path(text, toks, first, after, trees, idx);
    arena_set(trees, idx, UseTreeNode { path, alias, list, comma_after_last: comma, start, end }, n);
    Some((idx, next))
}

/// What follows the path of a tree whose first token is `first` and whose
/// path ends before token `after`: an alias, or `::` and a list or a glob.
/// Returns the alias, the list, the comma after its last tree, and the end
/// and next token index of the tree.
fn parse_after_path(
    text: &Vec<char>,
    toks: &Vec<Token>,
    first: usize,
    after: usize,
    trees: &mut Vec<UseTreeNode>,
    idx: usize,
) -> (r: (Option<(usize, usize)>, Option<Vec<usize>>, Option<usize>, usize, usize))
    requires
        tokens_cover(toks@, text@.len() as int),
        first < after <= toks@.len(),
        idx < old(trees)@.len(),
        arena_wf(old(trees)@, text@.len() as int),
    ensures
        arena_wf(final(trees)@, text@.len() as int),
        final(trees)@.len() >= old(trees)@.len(),
        r.0 matches Some(a) ==> a.0 <= a.1 <= text@.len(),
        r.1 matches Some(l) ==> forall|k: int| 0 <= k < l@.len() ==> idx < #[trigger] l@[k] < final(trees)@.len(),
        r.2 matches Some(c) ==> c <= text@.len(),
        toks@[first as int].start <= r.3 <= text@.len(),
        first < r.4 <= toks@.len(),
    decreases toks@.len() - after, 2int, 0int,
{
    let n = text.len();
    let len = toks.len();
    proof {
        lemma_token_in_text(toks@, n as int, after - 1);
        lemma_token_order(toks@, n as int, first as int, after - 1);
    }
    let path_end = toks[after - 1].end;
    let k = skip_trivia(toks, after);
    if k < len {
        proof {
            lemma_token_in_text(toks@, n as int, k as int);
        }
    }
    if is_token(toks, k, TokenKind::ColonColon) {
        let open = skip_trivia(toks, k + 1);
        if is_token(toks, open, TokenKind::LBrace) || is_token(toks, open, TokenKind::Star) {
            let (l, c, e, x) = parse_tree_end(text, toks, first, open, trees, idx);
            return (None, l, c, e, x);
        }
    } else if is_token(toks, k, TokenKind::Ident) && text_is(text, toks[k].start, toks[k].end, "as") {
        let m = skip_trivia(toks, k + 1);
        if is_token(toks, m, TokenKind::Ident) {
            proof {
                lemma_token_in_text(toks@, n as int, m as int);
                lemma_token_order(toks@, n as int, first as int, m as int);
            }
            return (Some((toks[m].start, toks[m].end)), None, None, toks[m].end, m + 1);
        }
    }
    (None, None, None, path_end, after)
}

/// The end of a tree at token `open`, a `{` or a `*`: the list, if any, the
/// comma after its last tree, and the end and next token index of the tree.
fn parse_tree_end(
    text: &Vec<char>,
    toks: &Vec<Token>,
    first: usize,
    open: usize,
    trees: &mut Vec<UseTreeNode>,
    idx: usize,
) -> (r: (Option<Vec<usize>>, Option<usize>, usize, usize))
    requires
        tokens_cover(toks@, text@.len() as int),
        first <= open < toks@.len(),
        idx < old(trees)@.len(),
        arena_wf(old(trees)@, text@.len() as int),
    ensures
        arena_wf(final(trees)@, text@.len() as int),
        final(trees)@.len() >= old(trees)@.len(),
        r.0 matches Some(l) ==> forall|k: int| 0 <= k < l@.len() ==> idx < #[trigger] l@[k] < final(trees)@.len(),
        r.1 matches Some(c) ==> c <= text@.len(),
        toks@[first as int].start <= r.2 <= text@.len(),
        first < r.3 <= toks@.len(),
    decreases toks@.len() - open, 1int, 0int,
{
    let len = toks.len();
    if toks[open].kind == TokenKind::LBrace {
        let (children, comma, end, next) = parse_list(text, toks, first, open, trees, idx);
        (Some(children), comma, end, next)
    } else {
        proof {
            lemma_token_in_text(toks@, text@.len() as int, open as int);
            lemma_token_order(toks@, text@.len() as int, first as int, open as int);
        }
        (None, None, toks[open].end, open + 1)
    }
}

/// Parses the list whose `{` is token `open`, for the tree at arena index
/// `idx` whose first token is `first`. Returns the arena indices of the
/// nested trees, the end of a comma after the last of them, and the end and
/// next token index of the whole tree.
fn parse_list(
    text: &Vec<char>,
    toks: &Vec<Token>,
    first: usize,
    open: usize,
    trees: &mut Vec<UseTreeNode>,
    idx: usize,
) -> (r: (Vec<usize>, Option<usize>, usize, usize))
    requires
        tokens_cover(toks@, text@.len() as int),
        first <= open < toks@.len(),
        idx < old(trees)@.len(),
        arena_wf(old(trees)@, text@.len() as int),
    ensures
        arena_wf(final(trees)@, text@.len() as int),
        final(trees)@.len() >= old(trees)@.len(),
        forall|k: int| 0 <= k < r.0@.len() ==> idx < #[trigger] r.0@[k] < final(trees)@.len(),
        r.1 matches Some(c) ==> c <= text@.len(),
        toks@[first as int].start <= r.2 <= text@.len(),
        first < r.3 <= toks@.len(),
    decreases toks@.len() - open, 0int, 0int,
{
    let n = text.len();
    let len = toks.len();
    proof {
        lemma_token_in_text(toks@, n as int, open as int);
        lemma_token_order(toks@, n as int, first as int, open as int);
    }
    let mut children: Vec<usize> = Vec::new();
    let mut comma_after_last: Option<usize> = None;
    let mut end = toks[open].end;
    let mut next = open + 1;
    let mut p = open + 1;
    loop
        invariant
            tokens_cover(toks@, n as int),
            n == text@.len(),
            len == toks@.len(),
            first <= open < p <= toks@.len(),
            idx < trees@.len(),
            trees@.len() >= old(trees)@.len(),
            toks@[first as int].start <= end <= n,
            first < next <= toks@.len(),
            arena_wf(trees@, n as int),
            forall|k: int| 0 <= k < children@.len() ==> idx < #[trigger] children@[k] < trees@.len(),
            comma_after_last matches Some(c) ==> c <= n,
        decreases toks@.len() - p,
    {
        let q = skip_trivia(toks, p);
        if q >= len {
            proof {
                lemma_token_in_text(toks@, n as int, len - 1);
                lemma_token_order(toks@, n as int, first as int, len - 1);
            }
            end = toks[len - 1].end;
            next = len;
            break;
        }
        if toks[q].kind == TokenKind::RBrace {
            proof {
                lemma_token_in_text(toks@, n as int, q as int);
                lemma_token_order(toks@, n as int, first as int, q as int);
            }
            end = toks[q].end;
            next = q + 1;
            break;
        }
        match parse_use_tree(text, toks, p, trees) {
            None => {
                break;
            },
            Some((c, p2)) => {
                children.push(c);
                comma_after_last = None;
                let r = skip_trivia(toks, p2);
                if is_token(toks, r, TokenKind::Comma) {
                    proof {
                        lemma_token_in_text(toks@, n as int, r as int);
                    }
                    comma_after_last = Some(toks[r].end);
                    p = r + 1;
                } else if is_token(toks, r, TokenKind::RBrace) {
                    p = r;
                } else {
                    proof {
                        lemma_token_in_text(toks@, n as int, p2 - 1);
                        lemma_token_order(toks@, n as int, first as int, p2 - 1);
                    }
                    end = toks[p2 - 1].end;
                    next = p2;
                    break;
                }
            },
        }
    }
    (children, comma_after_last, end, next)
}

/// Later tokens end later.
pub proof fn lemma_token_order(toks: Seq<Token>, n: int, a: int, b: int)
    requires
        tokens_cover(toks, n),
        0 <= a <= b < toks.len(),
    ensures
        toks[a].start <= toks[b].start,
        toks[a].end <= toks[b].end,
    decreases b - a,
{
    if a < b {
        lemma_token_order(toks, n, a, b - 1);
    }
}

/// What import insertion reads of a file.
pub struct FileSyntax {
    pub text: Vec<char>,
    pub tokens: Vec<Token>,
    /// The arena of use trees.
    pub trees: Vec<UseTreeNode>,
    /// The `use` items at the top level, in order.
    pub uses: Vec<UseItem>,
    /// The range of the first item at the top level, of any kind.
    pub first_item: Option<(usize, usize)>,
}

impl FileSyntax {
    pub open spec fn wf(&self) -> bool {
        let n = self.text@.len() as int;
        &&& tokens_cover(self.tokens@, n)
        &&& self.tokens@ == spec_tokens(self.text@)
        &&& arena_wf(self.trees@, n)
        &&& forall|k: int|
            0 <= k < self.uses@.len() ==> {
                let u = #[trigger] self.uses@[k];
                &&& u.start <= u.end <= n
                &&& (u.tree matches Some(t) ==> t < self.trees@.len())
            }
        &&& (self.first_item matches Some(r) ==> r.0 <= r.1 <= n)
    }
}

/// Index of the first `;` at or after token `i`, or `toks.len()`.
/// Index of the first `;` token at or after `j`, or the number of tokens.
pub open spec fn semi_from(toks: Seq<Token>, j: int) -> int
    decreases toks.len() - j,
{
    if 0 <= j < toks.len() && toks[j].kind != TokenKind::Semi {
        semi_from(toks, j + 1)
    } else {
        j
    }
}

pub fn find_semi(toks: &Vec<Token>, i: usize) -> (r: usize)
    requires
        i <= toks@.len(),
    ensures
        i <= r <= toks@.len(),
        r < toks@.len() ==> toks@[r as int].kind == TokenKind::Semi,
        r == semi_from(toks@, i as int),
{
    let mut j = i;
    while j < toks.len() && toks[j].kind != TokenKind::Semi
        invariant
            i <= j <= toks@.len(),
            semi_from(toks@, j as int) == semi_from(toks@, i as int),
        decreases toks@.len() - j,
    {
        j = j + 1;
    }
    j
}

/// Index of the token that ends an item, scanning from `j` with `depth`
/// brackets open: the first `;` outside brackets, or the `}` that closes
/// the bracket level the scan started at; the last token if neither comes.
pub open spec fn item_end_from(toks: Seq<Token>, j: int, depth: int) -> int
    decreases toks.len() - j,
{
    if j < 0 || j >= toks.len() {
        toks.len() - 1
    } else {
        let k = toks[j].kind;
        if k == TokenKind::LBrace || k == TokenKind::LParen || k == TokenKind::LBracket {
            item_end_from(toks, j + 1, depth + 1)
        } else if k == TokenKind::RBrace || k == TokenKind::RParen || k == TokenKind::RBracket {
            let d = if depth > 0 {
                depth - 1
            } else {
                0
            };
            if d == 0 && k == TokenKind::RBrace {
                j
            } else {
                item_end_from(toks, j + 1, d)
            }
        } else if k == TokenKind::Semi && depth == 0 {
            j
        } else {
            item_end_from(toks, j + 1, depth)
        }
    }
}

/// End of the item whose first token is `i`: after its first `;` outside
/// brackets, or after the `}` that closes its first `{`.
pub fn item_end(toks: &Vec<Token>, i: usize) -> (r: usize)
    requires
        i < toks@.len(),
    ensures
        i <= r < toks@.len(),
        r == item_end_from(toks@, i as int, 0),
{
    let mut depth: usize = 0;
    let mut j = i;
    while j < toks.len()
        invariant
            i <= j <= toks@.len(),
            depth <= j - i,
            item_end_from(toks@, j as int, depth as int) == item_end_from(toks@, i as int, 0),
        decreases toks@.len() - j,
    {
        let k = toks[j].kind;
        if k == TokenKind::LBrace || k == TokenKind::LParen || k == TokenKind::LBracket {
            depth = depth + 1;
        } else if k == TokenKind::RBrace || k == TokenKind::RParen || k == TokenKind::RBracket {
            if depth > 0 {
                depth = depth - 1;
            }
            if depth == 0 && k == TokenKind::RBrace {
                return j;
            }
        } else if k == TokenKind::Semi && depth == 0 {
            return j;
        }
        j = j + 1;
    }
    toks.len() - 1
}

/// The words that begin an item.
pub open spec fn item_keyword(w: Seq<char>) -> bool {
    w == "impl"@ || w == "fn"@ || w == "struct"@ || w == "enum"@ || w == "mod"@ || w == "trait"@ || w == "type"@
        || w == "const"@ || w == "static"@ || w == "extern"@ || w == "pub"@ || w == "unsafe"@
}

/// The keywords that cannot be path segments.
pub open spec fn reserved_word(w: Seq<char>) -> bool {
    item_keyword(w) || w == "use"@ || w == "as"@ || w == "for"@ || w == "where"@ || w == "let"@ || w == "match"@
        || w == "if"@ || w == "else"@ || w == "in"@ || w == "mut"@ || w == "dyn"@ || w == "return"@ || w
        == "while"@ || w == "loop"@
}

fn is_item_keyword(text: &Vec<char>, t: Token) -> (r: bool)
    requires
        t.start <= t.end <= text@.len(),
    ensures
        r == item_keyword(text@.subrange(t.start as int, t.end as int)),
{
    text_is(text, t.start, t.end, "impl") || text_is(text, t.start, t.end, "fn") || text_is(text, t.start, t.end, "struct")
        || text_is(text, t.start, t.end, "enum") || text_is(text, t.start, t.end, "mod") || text_is(
        text,
        t.start,
        t.end,
        "trait",
    ) || text_is(text, t.start, t.end, "type") || text_is(text, t.start, t.end, "const") || text_is(
        text,
        t.start,
        t.end,
        "static",
    ) || text_is(text, t.start, t.end, "extern") || text_is(text, t.start, t.end, "pub") || text_is(
        text,
        t.start,
        t.end,
        "unsafe",
    )
}

/// Whether token `t` is a keyword that cannot be a path segment.
pub fn is_reserved(text: &Vec<char>, t: Token) -> (r: bool)
    requires
        t.start <= t.end <= text@.len(),
    ensures
        r == reserved_word(text@.subrange(t.start as int, t.end as int)),
{
    is_item_keyword(text, t) || text_is(text, t.start, t.end, "use") || text_is(text, t.start, t.end, "as")
        || text_is(text, t.start, t.end, "for") || text_is(text, t.start, t.end, "where") || text_is(
        text,
        t.start,
        t.end,
        "let",
    ) || text_is(text, t.start, t.end, "match") || text_is(text, t.start, t.end, "if") || text_is(
        text,
        t.start,
        t.end,
        "else",
    ) || text_is(text, t.start, t.end, "in") || text_is(text, t.start, t.end, "mut") || text_is(
        text,
        t.start,
        t.end,
        "dyn",
    ) || text_is(text, t.start, t.end, "return") || text_is(text, t.start, t.end, "while") || text_is(
        text,
        t.start,
        t.end,
        "loop",
    )
}

/// Scans `text` for its `use` items and its first item.
pub fn parse_file(text: Vec<char>) -> (r: FileSyntax)
    ensures
        r.wf(),
        r.text@ == text@,
{
    let toks = tokenize(&text);
    let n = text.len();
    let len = toks.len();
    let mut trees: Vec<UseTreeNode> = Vec::new();
    let mut uses: Vec<UseItem> = Vec::new();
    let mut first_item: Option<(usize, usize)> = None;
    let mut depth: usize = 0;
    let mut i: usize = 0;
    proof {
        reveal(arena_wf);
    }
    while i < len
        invariant
            n == text@.len(),
            len == toks@.len(),
            tokens_cover(toks@, n as int),
            toks@ == spec_tokens(text@),
            i <= len,
            arena_wf(trees@, n as int),
            forall|k: int|
                0 <= k < uses@.len() ==> {
                    let u = #[trigger] uses@[k];
                    &&& u.start <= u.end <= n
                    &&& (u.tree matches Some(t) ==> t < trees@.len())
                },
            first_item matches Some(r) ==> r.0 <= r.1 <= n,
        decreases len - i,
    {
        let t = toks[i];
        proof {
            lemma_token_in_text(toks@, n as int, i as int);
        }
        let k = t.kind;
        if k == TokenKind::LBrace || k == TokenKind::LParen || k == TokenKind::LBracket {
            if depth < usize::MAX {
                depth = depth + 1;
            }
            i = i + 1;
        } else if k == TokenKind::RBrace || k == TokenKind::RParen || k == TokenKind::RBracket {
            if depth > 0 {
                depth = depth - 1;
            }
            i = i + 1;
        } else if k == TokenKind::Ident && text_is(&text, t.start, t.end, "use") {
            let semi = find_semi(&toks, i + 1);
            let last = if semi < len {
                semi
            } else {
                len - 1
            };
            proof {
                lemma_token_in_text(toks@, n as int, last as int);
                lemma_token_order(toks@, n as int, i as int, last as int);
            }
            let end = toks[last].end;
            if depth == 0 {
                let tree = match parse_use_tree(&text, &toks, i + 1, &mut trees) {
                    Some((idx, _)) => Some(idx),
                    None => None,
                };
                let item = UseItem { tree, start: t.start, end };
                uses.push(item);
                if first_item.is_none() {
                    first_item = Some((t.start, end));
                }
                i = last + 1;
            } else {
                i = i + 1;
            }
        } else if depth == 0 && (k == TokenKind::Hash || (k == TokenKind::Ident && is_item_keyword(&text, t))) {
            if first_item.is_none() {
                let last = item_end(&toks, i);
                proof {
                    lemma_token_in_text(toks@, n as int, last as int);
                    lemma_token_order(toks@, n as int, i as int, last as int);
                }
                first_item = Some((t.start, toks[last].end));
            }
            i = i + 1;
        } else {
            i = i + 1;
        }
    }
    FileSyntax { text, tokens: toks, trees, uses, first_item }
}

/// Index of the first identifier token whose range holds `offset`,
/// searching from `t`.
pub open spec fn ident_at(toks: Seq<Token>, offset: int, t: int) -> Option<int>
    decreases toks.len() - t,
{
    if t < 0 || t >= toks.len() {
        None
    } else if toks[t].kind == TokenKind::Ident && toks[t].start <= offset <= toks[t].end {
        Some(t)
    } else {
        ident_at(toks, offset, t + 1)
    }
}

/// Moves back from segment token `k` over `seg ::` pairs whose segment is
/// not a keyword.
pub open spec fn path_back(text: Seq<char>, toks: Seq<Token>, k: int) -> int
    decreases k,
{
    if 2 <= k < toks.len() && toks[k - 1].kind == TokenKind::ColonColon && toks[k - 2].kind == TokenKind::Ident
        && !reserved_word(text.subrange(toks[k - 2].start as int, toks[k - 2].end as int)) {
        path_back(text, toks, k - 2)
    } else {
        k
    }
}

/// The first and last segment token of the path whose last segment holds
/// `offset`: the identifier at `offset`, unless it is a keyword, and the
/// `seg ::` pairs before it.
pub open spec fn spec_path_at(text: Seq<char>, offset: int) -> Option<(int, int)> {
    let toks = spec_tokens(text);
    match ident_at(toks, offset, 0) {
        None => None,
        Some(t) => if reserved_word(text.subrange(toks[t].start as int, toks[t].end as int)) {
            None
        } else {
            Some((path_back(text, toks, t), t))
        },
    }
}

/// The first segment token of the path whose last segment is token `t`;
/// see [`path_back`].
fn path_start_token(text: &Vec<char>, toks: &Vec<Token>, t: usize) -> (k: usize)
    requires
        tokens_cover(toks@, text@.len() as int),
        t < toks@.len(),
    ensures
        k <= t,
        (t - k) % 2 == 0,
        k as int == path_back(text@, toks@, t as int),
{
    let n = text.len();
    let mut k = t;
    loop
        invariant
            k <= t < toks@.len(),
            tokens_cover(toks@, n as int),
            n == text@.len(),
            (t - k) % 2 == 0,
            path_back(text@, toks@, k as int) == path_back(text@, toks@, t as int),
        ensures
            k <= t,
            (t - k) % 2 == 0,
            k as int == path_back(text@, toks@, t as int),
        decreases k,
    {
        if k < 2 || toks[k - 1].kind != TokenKind::ColonColon || toks[k - 2].kind != TokenKind::Ident {
            break;
        }
        proof {
            lemma_token_in_text(toks@, n as int, k - 2);
        }
        if is_reserved(text, toks[k - 2]) {
            break;
        }
        k = k - 2;
    }
    k
}

/// The path whose last segment holds `offset`, and the start of that path;
/// `None` when no identifier that can be a path segment holds it.
pub fn path_at(file: &FileSyntax, offset: usize) -> (r: Option<(Vec<PathSegment>, usize)>)
    requires
        file.wf(),
    ensures
        r is None <==> spec_path_at(file.text@, offset as int) is None,
        r matches Some((segs, start)) ==> {
            let (k, t) = spec_path_at(file.text@, offset as int)->0;
            &&& 0 <= k <= t < file.tokens@.len()
            &&& start == file.tokens@[k].start
            &&& segs@.len() == (t - k) / 2 + 1
            &&& segs@.last().start == file.tokens@[t].start
        },
        r matches Some((segs, start)) ==> segs@.len() > 0 && start == segs@[0].start
            && segs@[0].start <= segs@.last().start
            && forall|k: int| 0 <= k < segs@.len() ==> #[trigger] segment_fits(segs@[k], file.text@.len() as int),
{
    let toks = &file.tokens;
    let text = &file.text;
    let n = text.len();
    let len = toks.len();
    let mut t: usize = 0;
    while t < len && !(toks[t].kind == TokenKind::Ident && toks[t].start <= offset && offset <= toks[t].end)
        invariant
            t <= len,
            len == toks@.len(),
            ident_at(toks@, offset as int, t as int) == ident_at(toks@, offset as int, 0),
        decreases len - t,
    {
        t = t + 1;
    }
    if t >= len {
        return None;
    }
    proof {
        lemma_token_in_text(toks@, n as int, t as int);
    }
    if is_reserved(text, toks[t]) {
        return None;
    }
    let k = path_start_token(text, toks, t);
    let count = (t - k) / 2 + 1;
    let mut segs: Vec<PathSegment> = Vec::new();
    let mut j: usize = 0;
    let mut q = k;
    while j < count
        invariant
            k <= t < len,
            len == toks@.len(),
            tokens_cover(toks@, n as int),
            n == text@.len(),
            (t - k) % 2 == 0,
            count == (t - k) / 2 + 1,
            j <= count,
            j < count ==> q == k + 2 * j,
            segs@.len() == j,
            segs@.len() > 0 ==> segs@[0].start == toks@[k as int].start,
            segs@.len() > 0 ==> segs@[0].start <= segs@.last().start,
            segs@.len() > 0 ==> segs@.last().start == toks@[k + 2 * (segs@.len() - 1)].start,
            forall|p: int| 0 <= p < segs@.len() ==> #[trigger] segment_fits(segs@[p], n as int),
        decreases count - j,
    {
        let tok = toks[q];
        proof {
            lemma_token_in_text(toks@, n as int, q as int);
            lemma_token_order(toks@, n as int, k as int, q as int);
        }
        segs.push(PathSegment { kind: segment_kind(text, tok.start, tok.end), start: tok.start, end: tok.end });
        j = j + 1;
        if j < count {
            q = q + 2;
        }
    }
    assert(k + 2 * (count - 1) == t);
    let start = segs[0].start;
    Some((segs, start))
}

} // verus!
