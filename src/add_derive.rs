use vstd::prelude::*;
use crate::text_edit::{AssistAction, AtomEdit, TextEdit};
use crate::use_syntax::{
    chars_of, item_end, item_end_from, lemma_token_in_text, lemma_token_order, spec_tokens, text_is, tokenize,
    tokens_cover, Token, TokenKind,
};

verus! {

/// The text that a new derive attribute adds before an item.
pub open spec fn derive_text() -> Seq<char> {
    seq!['#', '[', 'd', 'e', 'r', 'i', 'v', 'e', '(', ')', ']', '\n']
}

fn derive_chars() -> (r: Vec<char>)
    ensures
        r@ == derive_text(),
{
    let mut r: Vec<char> = Vec::new();
    r.push('#');
    r.push('[');
    r.push('d');
    r.push('e');
    r.push('r');
    r.push('i');
    r.push('v');
    r.push('e');
    r.push('(');
    r.push(')');
    r.push(']');
    r.push('\n');
    assert(r@ =~= derive_text());
    r
}

pub open spec fn tok_text(text: Seq<char>, t: Token) -> Seq<char> {
    text.subrange(t.start as int, t.end as int)
}

/// Scanning back from token `i` with `depth` `]`s open: the `#` before the
/// `[` that balances them, if it is there.
pub open spec fn attr_from(toks: Seq<Token>, i: int, depth: int) -> Option<int>
    decreases i,
{
    if i <= 0 || i >= toks.len() {
        None
    } else {
        let k = toks[i].kind;
        if k == TokenKind::RBracket {
            attr_from(toks, i - 1, depth + 1)
        } else if k == TokenKind::LBracket {
            let d = if depth > 0 {
                depth - 1
            } else {
                0
            };
            if d == 0 {
                if toks[i - 1].kind == TokenKind::Hash {
                    Some(i - 1)
                } else {
                    None
                }
            } else {
                attr_from(toks, i - 1, d)
            }
        } else {
            attr_from(toks, i - 1, depth)
        }
    }
}

/// Moves back from `b` over whitespace tokens.
pub open spec fn ws_back(toks: Seq<Token>, b: int) -> int
    decreases b,
{
    if 0 < b <= toks.len() && toks[b - 1].kind == TokenKind::Whitespace {
        ws_back(toks, b - 1)
    } else {
        b
    }
}

/// First token of an item that starts at token `b` or earlier: comments,
/// `pub` and attributes before it, over whitespace, belong to it.
pub open spec fn item_start_from(text: Seq<char>, toks: Seq<Token>, b: int) -> int
    decreases b,
{
    let p = ws_back(toks, b);
    if b <= 0 || b >= toks.len() || p <= 0 || p > b {
        b
    } else {
        let t = toks[p - 1];
        if t.kind == TokenKind::Comment || (t.kind == TokenKind::Ident && tok_text(text, t) == "pub"@) {
            item_start_from(text, toks, p - 1)
        } else if t.kind == TokenKind::RBracket {
            match attr_from(toks, p - 1, 0) {
                Some(h) => if 0 <= h < b {
                    item_start_from(text, toks, h)
                } else {
                    b
                },
                None => b,
            }
        } else {
            b
        }
    }
}

/// Index of the `)` that closes the parenthesis opened at or after token
/// `j`, before `to`, with `depth` parentheses open.
pub open spec fn paren_close(toks: Seq<Token>, j: int, to: int, depth: int) -> Option<int>
    decreases to - j,
{
    if j < 0 || j >= to || j >= toks.len() {
        None
    } else {
        let k = toks[j].kind;
        if k == TokenKind::LParen {
            paren_close(toks, j + 1, to, depth + 1)
        } else if k == TokenKind::RParen {
            let d = if depth > 0 {
                depth - 1
            } else {
                0
            };
            if d == 0 {
                Some(j)
            } else {
                paren_close(toks, j + 1, to, d)
            }
        } else {
            paren_close(toks, j + 1, to, depth)
        }
    }
}

/// Whether tokens `i..i + 4` are `#`, `[`, `derive`, `(`.
pub open spec fn derive_opens_at(text: Seq<char>, toks: Seq<Token>, i: int) -> bool {
    &&& toks[i].kind == TokenKind::Hash
    &&& toks[i + 1].kind == TokenKind::LBracket
    &&& toks[i + 2].kind == TokenKind::Ident
    &&& toks[i + 3].kind == TokenKind::LParen
    &&& tok_text(text, toks[i + 2]) == "derive"@
}

/// The closing `)` of the first `#[derive(` among tokens `i..to`.
pub open spec fn derive_from(text: Seq<char>, toks: Seq<Token>, i: int, to: int) -> Option<int>
    decreases to - i,
{
    if !(0 <= i < to && to - i > 3 && to <= toks.len()) {
        None
    } else if derive_opens_at(text, toks, i) {
        paren_close(toks, i + 3, to, 0)
    } else {
        derive_from(text, toks, i + 1, to)
    }
}

/// Moves forward from `s` over comments and whitespace, up to `kw`.
pub open spec fn skip_comments(toks: Seq<Token>, s: int, kw: int) -> int
    decreases kw - s,
{
    if 0 <= s < kw && kw <= toks.len() && (toks[s].kind == TokenKind::Comment || toks[s].kind
        == TokenKind::Whitespace) {
        skip_comments(toks, s + 1, kw)
    } else {
        s
    }
}

/// Whether token `i` is the keyword of a struct or an enum whose range
/// holds `offset`.
pub open spec fn nominal_at(text: Seq<char>, toks: Seq<Token>, offset: int, i: int) -> bool {
    let t = toks[i];
    &&& t.kind == TokenKind::Ident
    &&& (tok_text(text, t) == "struct"@ || tok_text(text, t) == "enum"@)
    &&& toks[item_start_from(text, toks, i)].start <= offset
    &&& offset <= toks[item_end_from(toks, i, 0)].end
}

/// Among the tokens before `i`, the last struct or enum keyword whose item
/// holds `offset`, with the first and last token of that item.
pub open spec fn find_nominal(text: Seq<char>, toks: Seq<Token>, offset: int, i: int) -> Option<(int, int, int)>
    decreases i,
{
    if i <= 0 || i > toks.len() {
        None
    } else if nominal_at(text, toks, offset, i - 1) {
        Some((item_start_from(text, toks, i - 1), i - 1, item_end_from(toks, i - 1, 0)))
    } else {
        find_nominal(text, toks, offset, i - 1)
    }
}

/// For the innermost struct or enum around `offset`: its range, the
/// position of the `)` of its derive attribute if it has one, and the
/// position of its first token that is not a comment.
pub open spec fn spec_add_derive(text: Seq<char>, offset: int) -> Option<((int, int), Option<int>, int)> {
    let toks = spec_tokens(text);
    match find_nominal(text, toks, offset, toks.len() as int) {
        None => None,
        Some((s, kw, e)) => {
            let target = (toks[s].start as int, toks[e].end as int);
            match derive_from(text, toks, s, kw) {
                Some(c) => Some((target, Some(toks[c].start as int), 0)),
                None => Some((target, None, toks[skip_comments(toks, s, kw)].start as int)),
            }
        },
    }
}

fn attribute_start(toks: &Vec<Token>, close: usize) -> (r: Option<usize>)
    requires
        close < toks@.len(),
    ensures
        r matches Some(h) ==> h < close,
        r is None <==> attr_from(toks@, close as int, 0) is None,
        r matches Some(h) ==> attr_from(toks@, close as int, 0) == Some(h as int),
{
    let mut depth: usize = 0;
    let mut i = close;
    while i > 0
        invariant
            i <= close < toks@.len(),
            depth <= close - i,
            attr_from(toks@, i as int, depth as int) == attr_from(toks@, close as int, 0),
        decreases i,
    {
        let k = toks[i].kind;
        if k == TokenKind::RBracket {
            depth = depth + 1;
        } else if k == TokenKind::LBracket {
            if depth > 0 {
                depth = depth - 1;
            }
            if depth == 0 {
                if toks[i - 1].kind == TokenKind::Hash {
                    return Some(i - 1);
                }
                return None;
            }
        }
        i = i - 1;
    }
    None
}

fn item_start(text: &Vec<char>, toks: &Vec<Token>, kw: usize) -> (r: usize)
    requires
        tokens_cover(toks@, text@.len() as int),
        kw < toks@.len(),
    ensures
        r <= kw,
        r == item_start_from(text@, toks@, kw as int),
{
    let mut b = kw;
    loop
        invariant
            b <= kw < toks@.len(),
            tokens_cover(toks@, text@.len() as int),
            item_start_from(text@, toks@, b as int) == item_start_from(text@, toks@, kw as int),
        ensures
            b <= kw,
            item_start_from(text@, toks@, kw as int) == b as int,
        decreases b,
    {
        let mut p = b;
        while p > 0 && toks[p - 1].kind == TokenKind::Whitespace
            invariant
                p <= b <= kw < toks@.len(),
                ws_back(toks@, p as int) == ws_back(toks@, b as int),
            decreases p,
        {
            p = p - 1;
        }
        if p == 0 || b == 0 {
            break;
        }
        let t = toks[p - 1];
        proof {
            lemma_token_in_text(toks@, text@.len() as int, p - 1);
        }
        if t.kind == TokenKind::Comment || (t.kind == TokenKind::Ident && text_is(text, t.start, t.end, "pub")) {
            b = p - 1;
        } else if t.kind == TokenKind::RBracket {
            match attribute_start(toks, p - 1) {
                Some(h) => {
                    b = h;
                },
                None => {
                    break;
                },
            }
        } else {
            break;
        }
    }
    b
}

fn paren_close_exec(toks: &Vec<Token>, from: usize, to: usize) -> (r: Option<usize>)
    requires
        from <= to <= toks@.len(),
    ensures
        r matches Some(c) ==> from <= c < to && toks@[c as int].kind == TokenKind::RParen,
        r is None <==> paren_close(toks@, from as int, to as int, 0) is None,
        r matches Some(c) ==> paren_close(toks@, from as int, to as int, 0) == Some(c as int),
{
    let mut depth: usize = 0;
    let mut j = from;
    while j < to
        invariant
            from <= j <= to <= toks@.len(),
            depth <= j - from,
            paren_close(toks@, j as int, to as int, depth as int) == paren_close(toks@, from as int, to as int, 0),
        decreases to - j,
    {
        let k = toks[j].kind;
        if k == TokenKind::LParen {
            depth = depth + 1;
        } else if k == TokenKind::RParen {
            if depth > 0 {
                depth = depth - 1;
            }
            if depth == 0 {
                return Some(j);
            }
        }
        j = j + 1;
    }
    None
}

/// The `)` of a `#[derive(...)]` attribute among tokens `from..to`.
fn derive_close(text: &Vec<char>, toks: &Vec<Token>, from: usize, to: usize) -> (r: Option<usize>)
    requires
        tokens_cover(toks@, text@.len() as int),
        from <= to <= toks@.len(),
    ensures
        r matches Some(c) ==> from <= c < to && toks@[c as int].kind == TokenKind::RParen,
        r is None <==> derive_from(text@, toks@, from as int, to as int) is None,
        r matches Some(c) ==> derive_from(text@, toks@, from as int, to as int) == Some(c as int),
{
    let mut i = from;
    while i < to && to - i > 3
        invariant
            from <= i,
            to <= toks@.len(),
            tokens_cover(toks@, text@.len() as int),
            derive_from(text@, toks@, i as int, to as int) == derive_from(text@, toks@, from as int, to as int),
        decreases to - i,
    {
        proof {
            lemma_token_in_text(toks@, text@.len() as int, i + 2);
        }
        if toks[i].kind == TokenKind::Hash && toks[i + 1].kind == TokenKind::LBracket && toks[i + 2].kind
            == TokenKind::Ident && toks[i + 3].kind == TokenKind::LParen && text_is(
            text,
            toks[i + 2].start,
            toks[i + 2].end,
            "derive",
        ) {
            return paren_close_exec(toks, i + 3, to);
        }
        i = i + 1;
    }
    None
}

/// Adds `#[derive()]` before the innermost struct or enum around `offset`
/// (see [`spec_add_derive`]), after its comments, and puts the cursor
/// between the parentheses; where the item has a derive attribute already,
/// makes no edit and puts the cursor before that attribute's `)`. The target
/// is the item, comments and attributes included. `None` where no struct or
/// enum holds `offset`.
pub fn add_derive(text: &str, offset: usize) -> (r: Option<AssistAction>)
    ensures
        match spec_add_derive(text@, offset as int) {
            None => r is None,
            Some((target, existing, insert_at)) => match existing {
                Some(c) => r matches Some(a) && a.target == Some((target.0 as usize, target.1 as usize))
                    && a.edit.atoms@.len() == 0 && a.cursor_position == Some(c as usize) && c < text@.len()
                    && text@[c] == ')',
                None => if insert_at + 9 > usize::MAX {
                    r is None
                } else {
                    r matches Some(a) && a.target == Some((target.0 as usize, target.1 as usize))
                        && a.edit.atoms@.len() == 1 && a.edit.atoms@[0].delete_start == insert_at
                        && a.edit.atoms@[0].delete_end == insert_at && a.edit.atoms@[0].insert@ == derive_text()
                        && a.cursor_position == Some((insert_at + 9) as usize)
                },
            },
        },
{
    let chars = chars_of(text);
    let toks = tokenize(&chars);
    let n = chars.len();
    let len = toks.len();
    let mut found: Option<(usize, usize, usize)> = None;
    let mut i: usize = 0;
    while i < len
        invariant
            len == toks@.len(),
            n == chars@.len(),
            chars@ == text@,
            toks@ == spec_tokens(chars@),
            tokens_cover(toks@, n as int),
            forall|q: int|
                0 <= q < toks@.len() && (#[trigger] toks@[q]).kind == TokenKind::RParen ==> toks@[q].end
                    == toks@[q].start + 1 && chars@[toks@[q].start as int] == ')',
            i <= len,
            found matches Some((s, k, e)) ==> s <= k <= e < len,
            found is None <==> find_nominal(chars@, toks@, offset as int, i as int) is None,
            found matches Some((s, k, e)) ==> find_nominal(chars@, toks@, offset as int, i as int) == Some(
                (s as int, k as int, e as int),
            ),
        decreases len - i,
    {
        let t = toks[i];
        proof {
            lemma_token_in_text(toks@, n as int, i as int);
        }
        if t.kind == TokenKind::Ident && (text_is(&chars, t.start, t.end, "struct") || text_is(&chars, t.start, t.end, "enum")) {
            let s = item_start(&chars, &toks, i);
            let e = item_end(&toks, i);
            proof {
                lemma_token_in_text(toks@, n as int, s as int);
                lemma_token_in_text(toks@, n as int, e as int);
            }
            if toks[s].start <= offset && offset <= toks[e].end {
                found = Some((s, i, e));
            }
        }
        i = i + 1;
    }
    let (s, kw, e) = match found {
        Some(f) => f,
        None => {
            return None;
        },
    };
    proof {
        lemma_token_in_text(toks@, n as int, s as int);
        lemma_token_in_text(toks@, n as int, e as int);
        lemma_token_order(toks@, n as int, s as int, e as int);
    }
    assert(toks@ == spec_tokens(text@));
    assert(find_nominal(text@, toks@, offset as int, toks@.len() as int) == Some((s as int, kw as int, e as int)));
    let target = (toks[s].start, toks[e].end);
    match derive_close(&chars, &toks, s, kw) {
        Some(c) => {
            proof {
                lemma_token_in_text(toks@, n as int, c as int);
            }
            let pos = toks[c].start;
            Some(AssistAction { edit: TextEdit { atoms: Vec::new() }, cursor_position: Some(pos), target: Some(target) })
        },
        None => {
            let mut start = s;
            while start < kw && (toks[start].kind == TokenKind::Comment || toks[start].kind == TokenKind::Whitespace)
                invariant
                    s <= start <= kw < len,
                    len == toks@.len(),
                    skip_comments(toks@, start as int, kw as int) == skip_comments(toks@, s as int, kw as int),
                decreases kw - start,
            {
                start = start + 1;
            }
            proof {
                lemma_token_in_text(toks@, n as int, start as int);
            }
            let node_start = toks[start].start;
            if node_start > usize::MAX - 9 {
                return None;
            }
            let mut atoms: Vec<AtomEdit> = Vec::new();
            atoms.push(AtomEdit::insert(node_start, derive_chars()));
            Some(
                AssistAction {
                    edit: TextEdit { atoms },
                    cursor_position: Some(node_start + 9),
                    target: Some(target),
                },
            )
        },
    }
}

} // verus!
