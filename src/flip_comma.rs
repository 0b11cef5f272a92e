use vstd::prelude::*;
use crate::text_edit::{AssistAction, AtomEdit, TextEdit};
use crate::use_syntax::{
    chars_of, lemma_token_in_text, lemma_token_order, spec_tokens, tokenize, tokens_cover, Token, TokenKind,
};

verus! {

pub open spec fn spec_trivia(t: Token) -> bool {
    t.kind == TokenKind::Whitespace || t.kind == TokenKind::Comment
}

/// `(`, `[`, `{` or `<`.
pub open spec fn spec_opens(text: Seq<char>, t: Token) -> bool {
    t.kind == TokenKind::LParen || t.kind == TokenKind::LBracket || t.kind == TokenKind::LBrace || (t.kind
        == TokenKind::Other && text[t.start as int] == '<')
}

/// `)`, `]`, `}` or a `>` not part of `->`.
pub open spec fn spec_closes(text: Seq<char>, t: Token) -> bool {
    t.kind == TokenKind::RParen || t.kind == TokenKind::RBracket || t.kind == TokenKind::RBrace || (t.kind
        == TokenKind::Other && text[t.start as int] == '>' && !(t.start > 0 && text[t.start - 1] == '-'))
}

/// `,` or `;`.
pub open spec fn spec_separates(t: Token) -> bool {
    t.kind == TokenKind::Comma || t.kind == TokenKind::Semi
}

/// Index of the first comma token touching `offset`, searching from `c`.
pub open spec fn comma_at(toks: Seq<Token>, offset: int, c: int) -> Option<int>
    decreases toks.len() - c,
{
    if c < 0 || c >= toks.len() {
        None
    } else if toks[c].kind == TokenKind::Comma && toks[c].start <= offset <= toks[c].end {
        Some(c)
    } else {
        comma_at(toks, offset, c + 1)
    }
}

/// Moves back from `e` over trivia tokens.
pub open spec fn skip_back(toks: Seq<Token>, e: int) -> int
    decreases e,
{
    if 0 < e <= toks.len() && spec_trivia(toks[e - 1]) {
        skip_back(toks, e - 1)
    } else {
        e
    }
}

/// Moves forward from `b` over trivia tokens, up to `l`.
pub open spec fn skip_fwd(toks: Seq<Token>, b: int, l: int) -> int
    decreases l - b,
{
    if 0 <= b < l && b < toks.len() && spec_trivia(toks[b]) {
        skip_fwd(toks, b + 1, l)
    } else {
        b
    }
}

/// Moves back from `s` with `depth` brackets open, to just after the nearest
/// separator or unmatched opening bracket.
pub open spec fn scan_back(text: Seq<char>, toks: Seq<Token>, s: int, depth: int) -> int
    decreases s,
{
    if s <= 0 || s > toks.len() {
        s
    } else {
        let t = toks[s - 1];
        if spec_closes(text, t) {
            scan_back(text, toks, s - 1, depth + 1)
        } else if spec_opens(text, t) {
            if depth == 0 {
                s
            } else {
                scan_back(text, toks, s - 1, depth - 1)
            }
        } else if spec_separates(t) && depth == 0 {
            s
        } else {
            scan_back(text, toks, s - 1, depth)
        }
    }
}

/// Moves forward from `x` with `depth` brackets open, to the nearest
/// separator or unmatched closing bracket.
pub open spec fn scan_fwd(text: Seq<char>, toks: Seq<Token>, x: int, depth: int) -> int
    decreases toks.len() - x,
{
    if x < 0 || x >= toks.len() {
        x
    } else {
        let t = toks[x];
        if spec_opens(text, t) {
            scan_fwd(text, toks, x + 1, depth + 1)
        } else if spec_closes(text, t) {
            if depth == 0 {
                x
            } else {
                scan_fwd(text, toks, x + 1, depth - 1)
            }
        } else if spec_separates(t) && depth == 0 {
            x
        } else {
            scan_fwd(text, toks, x + 1, depth)
        }
    }
}

/// Moves back from `l` over trivia tokens, down to `b`.
pub open spec fn trim_back(toks: Seq<Token>, b: int, l: int) -> int
    decreases l - b,
{
    if b < l && 0 <= l < toks.len() && spec_trivia(toks[l]) {
        trim_back(toks, b, l - 1)
    } else {
        l
    }
}

/// First and last token of the element just before comma token `c`: back
/// over trivia, then to the nearest separator or unmatched opening bracket.
pub open spec fn spec_prev_sibling(text: Seq<char>, toks: Seq<Token>, c: int) -> Option<(int, int)> {
    let e = skip_back(toks, c);
    if e == 0 || spec_opens(text, toks[e - 1]) || spec_separates(toks[e - 1]) {
        None
    } else {
        let l = e - 1;
        let s = scan_back(text, toks, l, if spec_closes(text, toks[l]) {
            1
        } else {
            0
        });
        Some((skip_fwd(toks, s, l), l))
    }
}

/// First and last token of the element just after comma token `c`: on over
/// trivia, then to the nearest separator or unmatched closing bracket.
pub open spec fn spec_next_sibling(text: Seq<char>, toks: Seq<Token>, c: int) -> Option<(int, int)> {
    let b = skip_fwd(toks, c + 1, toks.len() as int);
    if b >= toks.len() || spec_closes(text, toks[b]) || spec_separates(toks[b]) {
        None
    } else {
        let x = scan_fwd(text, toks, b, 0);
        let l = if x > b {
            x - 1
        } else {
            b
        };
        Some((b, trim_back(toks, b, l)))
    }
}

/// The comma token at `offset` with the token ranges of the elements before
/// and after it, when all three exist.
pub open spec fn spec_flip(text: Seq<char>, offset: int) -> Option<(int, (int, int), (int, int))> {
    let toks = spec_tokens(text);
    match comma_at(toks, offset, 0) {
        None => None,
        Some(c) => match (spec_prev_sibling(text, toks, c), spec_next_sibling(text, toks, c)) {
            (Some(p), Some(q)) => Some((c, p, q)),
            _ => None,
        },
    }
}

fn is_trivia(t: Token) -> (r: bool)
    ensures
        r == spec_trivia(t),
{
    t.kind == TokenKind::Whitespace || t.kind == TokenKind::Comment
}

fn opens(text: &Vec<char>, toks: &Vec<Token>, i: usize) -> (r: bool)
    requires
        tokens_cover(toks@, text@.len() as int),
        i < toks@.len(),
    ensures
        r == spec_opens(text@, toks@[i as int]),
{
    let t = toks[i];
    proof {
        lemma_token_in_text(toks@, text@.len() as int, i as int);
    }
    t.kind == TokenKind::LParen || t.kind == TokenKind::LBracket || t.kind == TokenKind::LBrace || (t.kind
        == TokenKind::Other && text[t.start] == '<')
}

fn closes(text: &Vec<char>, toks: &Vec<Token>, i: usize) -> (r: bool)
    requires
        tokens_cover(toks@, text@.len() as int),
        i < toks@.len(),
    ensures
        r == spec_closes(text@, toks@[i as int]),
{
    let t = toks[i];
    proof {
        lemma_token_in_text(toks@, text@.len() as int, i as int);
    }
    if t.kind == TokenKind::RParen || t.kind == TokenKind::RBracket || t.kind == TokenKind::RBrace {
        return true;
    }
    t.kind == TokenKind::Other && text[t.start] == '>' && !(t.start > 0 && text[t.start - 1] == '-')
}

fn separates(toks: &Vec<Token>, i: usize) -> (r: bool)
    requires
        i < toks@.len(),
    ensures
        r == spec_separates(toks@[i as int]),
{
    toks[i].kind == TokenKind::Comma || toks[i].kind == TokenKind::Semi
}

/// See [`scan_back`].
fn scan_back_exec(text: &Vec<char>, toks: &Vec<Token>, l: usize, depth0: usize) -> (r: usize)
    requires
        tokens_cover(toks@, text@.len() as int),
        l < toks@.len(),
        depth0 <= 1,
    ensures
        r <= l,
        r == scan_back(text@, toks@, l as int, depth0 as int),
{
    let len = toks.len();
    let mut depth = depth0;
    let mut s = l;
    while s > 0
        invariant
            len == toks@.len(),
            s <= l < toks@.len(),
            depth <= l - s + 1,
            tokens_cover(toks@, text@.len() as int),
            scan_back(text@, toks@, s as int, depth as int) == scan_back(text@, toks@, l as int, depth0 as int),
        ensures
            s <= l,
            scan_back(text@, toks@, l as int, depth0 as int) == s as int,
        decreases s,
    {
        if closes(text, toks, s - 1) {
            depth = depth + 1;
        } else if opens(text, toks, s - 1) {
            if depth == 0 {
                assert(scan_back(text@, toks@, s as int, depth as int) == s as int);
                break;
            }
            depth = depth - 1;
        } else if separates(toks, s - 1) && depth == 0 {
            assert(scan_back(text@, toks@, s as int, depth as int) == s as int);
            break;
        }
        s = s - 1;
    }
    s
}

/// See [`scan_fwd`].
fn scan_fwd_exec(text: &Vec<char>, toks: &Vec<Token>, b: usize) -> (r: usize)
    requires
        tokens_cover(toks@, text@.len() as int),
        b < toks@.len(),
    ensures
        b <= r <= toks@.len(),
        r == scan_fwd(text@, toks@, b as int, 0),
{
    let len = toks.len();
    let mut depth: usize = 0;
    let mut x = b;
    while x < len
        invariant
            b <= x <= len,
            len == toks@.len(),
            depth <= x - b,
            tokens_cover(toks@, text@.len() as int),
            scan_fwd(text@, toks@, x as int, depth as int) == scan_fwd(text@, toks@, b as int, 0),
        ensures
            b <= x <= len,
            scan_fwd(text@, toks@, b as int, 0) == x as int,
        decreases len - x,
    {
        if opens(text, toks, x) {
            depth = depth + 1;
        } else if closes(text, toks, x) {
            if depth == 0 {
                assert(scan_fwd(text@, toks@, x as int, depth as int) == x as int);
                break;
            }
            depth = depth - 1;
        } else if separates(toks, x) && depth == 0 {
            assert(scan_fwd(text@, toks@, x as int, depth as int) == x as int);
            break;
        }
        x = x + 1;
    }
    x
}

fn prev_sibling(text: &Vec<char>, toks: &Vec<Token>, c: usize) -> (r: Option<(usize, usize)>)
    requires
        tokens_cover(toks@, text@.len() as int),
        c < toks@.len(),
    ensures
        r matches Some((b, l)) ==> b <= l < c,
        r is None <==> spec_prev_sibling(text@, toks@, c as int) is None,
        r matches Some((b, l)) ==> spec_prev_sibling(text@, toks@, c as int) == Some((b as int, l as int)),
{
    let mut e = c;
    while e > 0 && is_trivia(toks[e - 1])
        invariant
            e <= c < toks@.len(),
            skip_back(toks@, e as int) == skip_back(toks@, c as int),
        decreases e,
    {
        e = e - 1;
    }
    if e == 0 || opens(text, toks, e - 1) || separates(toks, e - 1) {
        return None;
    }
    let l = e - 1;
    let depth: usize = if closes(text, toks, l) {
        1
    } else {
        0
    };
    let s = scan_back_exec(text, toks, l, depth);
    let mut b = s;
    while b < l && is_trivia(toks[b])
        invariant
            s <= b <= l < c < toks@.len(),
            skip_fwd(toks@, b as int, l as int) == skip_fwd(toks@, s as int, l as int),
        decreases l - b,
    {
        b = b + 1;
    }
    Some((b, l))
}

fn next_sibling(text: &Vec<char>, toks: &Vec<Token>, c: usize) -> (r: Option<(usize, usize)>)
    requires
        tokens_cover(toks@, text@.len() as int),
        c < toks@.len(),
    ensures
        r matches Some((b, l)) ==> c < b <= l < toks@.len(),
        r is None <==> spec_next_sibling(text@, toks@, c as int) is None,
        r matches Some((b, l)) ==> spec_next_sibling(text@, toks@, c as int) == Some((b as int, l as int)),
{
    let len = toks.len();
    let mut b = c + 1;
    while b < len && is_trivia(toks[b])
        invariant
            c < b <= len,
            len == toks@.len(),
            skip_fwd(toks@, b as int, len as int) == skip_fwd(toks@, c + 1, len as int),
        decreases len - b,
    {
        b = b + 1;
    }
    if b >= len || closes(text, toks, b) || separates(toks, b) {
        return None;
    }
    let x = scan_fwd_exec(text, toks, b);
    let mut l = if x > b {
        x - 1
    } else {
        b
    };
    let ghost l0 = l;
    while l > b && is_trivia(toks[l])
        invariant
            c < b <= l < len,
            len == toks@.len(),
            trim_back(toks@, b as int, l as int) == trim_back(toks@, b as int, l0 as int),
        decreases l,
    {
        l = l - 1;
    }
    Some((b, l))
}

/// A copy of the characters `start..end` of `text`.
fn slice_of(text: &Vec<char>, start: usize, end: usize) -> (r: Vec<char>)
    requires
        start <= end <= text@.len(),
    ensures
        r@ == text@.subrange(start as int, end as int),
{
    let mut r: Vec<char> = Vec::new();
    let mut i = start;
    while i < end
        invariant
            start <= i <= end <= text@.len(),
            r@ == text@.subrange(start as int, i as int),
        decreases end - i,
    {
        r.push(text[i]);
        i = i + 1;
        assert(r@ =~= text@.subrange(start as int, i as int));
    }
    r
}

/// The flip around comma token `c` of `toks`, when it has an element on
/// each side.
fn flip_at(chars: &Vec<char>, toks: &Vec<Token>, c: usize) -> (r: Option<AssistAction>)
    requires
        tokens_cover(toks@, chars@.len() as int),
        c < toks@.len(),
        toks@[c as int].kind == TokenKind::Comma,
        chars@[toks@[c as int].start as int] == ',',
    ensures
        r is Some <==> (spec_prev_sibling(chars@, toks@, c as int) is Some && spec_next_sibling(chars@, toks@, c as int) is Some),
        r matches Some(a) ==> {
            let p = spec_prev_sibling(chars@, toks@, c as int)->0;
            let q = spec_next_sibling(chars@, toks@, c as int)->0;
            let prev = (toks@[p.0].start as int, toks@[p.1].end as int);
            let next = (toks@[q.0].start as int, toks@[q.1].end as int);
            &&& a.cursor_position is None
            &&& a.target == Some((toks@[c as int].start, toks@[c as int].end))
            &&& a.edit.atoms@.len() == 2
            &&& a.edit.atoms@[0].delete_start == prev.0 && a.edit.atoms@[0].delete_end == prev.1
            &&& a.edit.atoms@[1].delete_start == next.0 && a.edit.atoms@[1].delete_end == next.1
            &&& a.edit.atoms@[0].insert@ == chars@.subrange(next.0, next.1)
            &&& a.edit.atoms@[1].insert@ == chars@.subrange(prev.0, prev.1)
            &&& prev.0 < prev.1 <= toks@[c as int].start < toks@[c as int].end <= next.0 < next.1 <= chars@.len()
        },
{
    let n = chars.len();
    let (pb, pl) = match prev_sibling(chars, toks, c) {
        Some(r) => r,
        None => {
            return None;
        },
    };
    let (nb, nl) = match next_sibling(chars, toks, c) {
        Some(r) => r,
        None => {
            return None;
        },
    };
    proof {
        lemma_token_in_text(toks@, n as int, pb as int);
        lemma_token_in_text(toks@, n as int, pl as int);
        lemma_token_in_text(toks@, n as int, c as int);
        lemma_token_in_text(toks@, n as int, nb as int);
        lemma_token_in_text(toks@, n as int, nl as int);
        lemma_token_order(toks@, n as int, pb as int, pl as int);
        lemma_token_order(toks@, n as int, pl as int, c as int);
        lemma_token_order(toks@, n as int, c as int, nb as int);
        lemma_token_order(toks@, n as int, nb as int, nl as int);
        if pl + 1 <= c {
            lemma_token_order(toks@, n as int, pl as int + 1, c as int);
        }
        lemma_token_order(toks@, n as int, c as int + 1, nb as int);
    }
    let comma = toks[c];
    let prev = (toks[pb].start, toks[pl].end);
    let next = (toks[nb].start, toks[nl].end);
    let prev_text = slice_of(chars, prev.0, prev.1);
    let next_text = slice_of(chars, next.0, next.1);
    let mut atoms: Vec<AtomEdit> = Vec::new();
    atoms.push(AtomEdit { delete_start: prev.0, delete_end: prev.1, insert: next_text });
    atoms.push(AtomEdit { delete_start: next.0, delete_end: next.1, insert: prev_text });
    Some(AssistAction { edit: TextEdit { atoms }, cursor_position: None, target: Some((comma.start, comma.end)) })
}

/// Swaps the elements on both sides of the comma at `offset`, such as two
/// parameters: `Some` exactly when [`spec_flip`] finds a comma token
/// touching `offset` with an element on each side. The edit replaces the
/// element before with the one after and the other way round; the target is
/// the comma.
pub fn flip_comma(text: &str, offset: usize) -> (r: Option<AssistAction>)
    ensures
        r is Some <==> spec_flip(text@, offset as int) is Some,
        r matches Some(a) ==> {
            let toks = spec_tokens(text@);
            let (c, p, q) = spec_flip(text@, offset as int)->0;
            let prev = (toks[p.0].start as int, toks[p.1].end as int);
            let next = (toks[q.0].start as int, toks[q.1].end as int);
            &&& a.cursor_position is None
            &&& a.target == Some((toks[c].start, toks[c].end))
            &&& text@[toks[c].start as int] == ','
            &&& a.edit.atoms@.len() == 2
            &&& a.edit.atoms@[0].delete_start == prev.0 && a.edit.atoms@[0].delete_end == prev.1
            &&& a.edit.atoms@[1].delete_start == next.0 && a.edit.atoms@[1].delete_end == next.1
            &&& a.edit.atoms@[0].insert@ == text@.subrange(next.0, next.1)
            &&& a.edit.atoms@[1].insert@ == text@.subrange(prev.0, prev.1)
            &&& prev.0 < prev.1 <= toks[c].start < toks[c].end <= next.0 < next.1 <= text@.len()
        },
{
    let chars = chars_of(text);
    let toks = tokenize(&chars);
    let len = toks.len();
    let mut c: usize = 0;
    while c < len && !(toks[c].kind == TokenKind::Comma && toks[c].start <= offset && offset <= toks[c].end)
        invariant
            c <= len,
            len == toks@.len(),
            comma_at(toks@, offset as int, c as int) == comma_at(toks@, offset as int, 0),
        decreases len - c,
    {
        c = c + 1;
    }
    if c >= len {
        return None;
    }
    assert(comma_at(toks@, offset as int, c as int) == Some(c as int));
    flip_at(&chars, &toks, c)
}

} // verus!
