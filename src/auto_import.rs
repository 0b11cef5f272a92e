use vstd::prelude::*;
use crate::text_edit::{AssistAction, AtomEdit, TextEdit};
use crate::use_syntax::{
    arena_wf, chars_of, find_semi, lemma_token_in_text, parse_file, path_at, segment_fits, semi_from,
    spec_path_at, spec_tokens, text_is, tokens_cover, FileSyntax, PathSegment, SegmentKind, Token, TokenKind,
};

verus! {

/// The text of segment `s`.
pub open spec fn seg_text(text: Seq<char>, s: PathSegment) -> Seq<char> {
    text.subrange(s.start as int, s.end as int)
}

/// Two segments are the same name, or the same keyword.
pub open spec fn same_segment(text: Seq<char>, a: PathSegment, b: PathSegment) -> bool {
    match (a.kind, b.kind) {
        (SegmentKind::Name, SegmentKind::Name) => seg_text(text, a) == seg_text(text, b),
        (SegmentKind::SelfKw, SegmentKind::SelfKw) => true,
        (SegmentKind::SuperKw, SegmentKind::SuperKw) => true,
        (SegmentKind::CrateKw, SegmentKind::CrateKw) => true,
        _ => false,
    }
}

/// Among the first `k` positions of `l` and `r`, how many hold the same
/// segment.
pub open spec fn count_same(text: Seq<char>, l: Seq<PathSegment>, r: Seq<PathSegment>, k: int) -> int
    decreases k,
{
    if k <= 0 {
        0
    } else {
        count_same(text, l, r, k - 1) + if same_segment(text, l[k - 1], r[k - 1]) {
            1int
        } else {
            0int
        }
    }
}

/// Whether the characters `a0..a1` and `b0..b1` of `text` are equal.
fn range_eq(text: &Vec<char>, a0: usize, a1: usize, b0: usize, b1: usize) -> (r: bool)
    requires
        a0 <= a1 <= text@.len(),
        b0 <= b1 <= text@.len(),
    ensures
        r == (text@.subrange(a0 as int, a1 as int) == text@.subrange(b0 as int, b1 as int)),
{
    if a1 - a0 != b1 - b0 {
        assert(text@.subrange(a0 as int, a1 as int).len() != text@.subrange(b0 as int, b1 as int).len());
        return false;
    }
    let mut i: usize = 0;
    while i < a1 - a0
        invariant
            a0 <= a1 <= text@.len(),
            b0 <= b1 <= text@.len(),
            a1 - a0 == b1 - b0,
            i <= a1 - a0,
            forall|k: int| 0 <= k < i ==> text@[a0 + k] == #[trigger] text@[b0 + k],
        decreases a1 - a0 - i,
    {
        if text[a0 + i] != text[b0 + i] {
            assert(text@.subrange(a0 as int, a1 as int)[i as int] != text@.subrange(b0 as int, b1 as int)[i as int]);
            return false;
        }
        i = i + 1;
    }
    assert forall|k: int| 0 <= k < a1 - a0 implies text@.subrange(a0 as int, a1 as int)[k] == text@.subrange(
        b0 as int,
        b1 as int,
    )[k] by {
        assert(text@[a0 + k] == text@[b0 + k]);
    }
    assert(text@.subrange(a0 as int, a1 as int) =~= text@.subrange(b0 as int, b1 as int));
    true
}

/// Whether `a` and `b` are the same name or the same keyword.
pub fn compare_path_segment(text: &Vec<char>, a: &PathSegment, b: &PathSegment) -> (r: bool)
    requires
        segment_fits(*a, text@.len() as int),
        segment_fits(*b, text@.len() as int),
    ensures
        r == same_segment(text@, *a, *b),
{
    match (a.kind, b.kind) {
        (SegmentKind::Name, SegmentKind::Name) => range_eq(text, a.start, a.end, b.start, b.end),
        (SegmentKind::SelfKw, SegmentKind::SelfKw) => true,
        (SegmentKind::SuperKw, SegmentKind::SuperKw) => true,
        (SegmentKind::CrateKw, SegmentKind::CrateKw) => true,
        _ => false,
    }
}

/// Whether `a` is a name segment spelled as the characters `n0..n1`.
pub fn compare_path_segment_with_name(text: &Vec<char>, a: &PathSegment, n0: usize, n1: usize) -> (r: bool)
    requires
        segment_fits(*a, text@.len() as int),
        n0 <= n1 <= text@.len(),
    ensures
        r == (a.kind == SegmentKind::Name && seg_text(text@, *a) == text@.subrange(n0 as int, n1 as int)),
{
    match a.kind {
        SegmentKind::Name => range_eq(text, a.start, a.end, n0, n1),
        _ => false,
    }
}

/// How many positions of `left[lf..]` and `right[rf..]` hold the same
/// segment, pairing them up in order.
pub fn compare_path_segments(
    text: &Vec<char>,
    left: &Vec<PathSegment>,
    lf: usize,
    right: &Vec<PathSegment>,
    rf: usize,
) -> (r: usize)
    requires
        lf <= left@.len(),
        rf <= right@.len(),
        forall|k: int| 0 <= k < left@.len() ==> #[trigger] segment_fits(left@[k], text@.len() as int),
        forall|k: int| 0 <= k < right@.len() ==> #[trigger] segment_fits(right@[k], text@.len() as int),
    ensures
        r == count_same(
            text@,
            left@.subrange(lf as int, left@.len() as int),
            right@.subrange(rf as int, right@.len() as int),
            if left@.len() - lf <= right@.len() - rf {
                left@.len() - lf
            } else {
                right@.len() - rf
            },
        ),
        r <= left@.len() - lf,
        r <= right@.len() - rf,
{
    let llen = left.len();
    let rlen = right.len();
    let ln = llen - lf;
    let rn = rlen - rf;
    let m = if ln <= rn {
        ln
    } else {
        rn
    };
    let ghost l = left@.subrange(lf as int, left@.len() as int);
    let ghost r = right@.subrange(rf as int, right@.len() as int);
    let mut count: usize = 0;
    let mut i: usize = 0;
    while i < m
        invariant
            llen == left@.len(),
            rlen == right@.len(),
            m <= ln == left@.len() - lf,
            m <= rn == right@.len() - rf,
            lf <= left@.len(),
            rf <= right@.len(),
            l == left@.subrange(lf as int, left@.len() as int),
            r == right@.subrange(rf as int, right@.len() as int),
            forall|k: int| 0 <= k < left@.len() ==> #[trigger] segment_fits(left@[k], text@.len() as int),
            forall|k: int| 0 <= k < right@.len() ==> #[trigger] segment_fits(right@[k], text@.len() as int),
            i <= m,
            count <= i,
            count == count_same(text@, l, r, i as int),
        decreases m - i,
    {
        assert(l[i as int] == left@[lf + i] && r[i as int] == right@[rf + i]);
        if compare_path_segment(text, &left[lf + i], &right[rf + i]) {
            count = count + 1;
        }
        i = i + 1;
    }
    count
}

/// A way to make a path importable in a file.
#[derive(Clone, Copy, Debug, PartialEq, Eq)]
pub enum ImportAction {
    /// The path is already imported.
    Nothing,
    /// Add a new `use` item, next to `anchor` (a character range).
    AddNewUse { anchor: Option<(usize, usize)>, add_after_anchor: bool },
    /// Split the path of use tree `tree` into a nested list.
    AddNestedImport {
        /// How many segments the tree's path shares with the target path.
        common_segments: usize,
        /// Arena index of the use tree whose path is split.
        tree: usize,
        /// Start of the first segment that moves into the new list; `None`
        /// to open the list after the whole path.
        first_segment_to_split: Option<usize>,
        /// Whether to add `self` beside the target path.
        add_self: bool,
    },
    /// Add the target path to the nested list of use tree `list_owner`.
    AddInTreeList { common_segments: usize, list_owner: usize, add_self: bool },
}

impl ImportAction {
    pub open spec fn spec_is_better(self, other: ImportAction) -> bool {
        match (self, other) {
            (ImportAction::Nothing, _) => true,
            (ImportAction::AddInTreeList { .. }, ImportAction::Nothing) => false,
            (
                ImportAction::AddNestedImport { common_segments: n, .. },
                ImportAction::AddInTreeList { common_segments: m, .. },
            ) => n > m,
            (
                ImportAction::AddInTreeList { common_segments: n, .. },
                ImportAction::AddNestedImport { common_segments: m, .. },
            ) => n > m,
            (ImportAction::AddInTreeList { .. }, _) => true,
            (ImportAction::AddNestedImport { .. }, ImportAction::Nothing) => false,
            (ImportAction::AddNestedImport { .. }, _) => true,
            (ImportAction::AddNewUse { .. }, _) => false,
        }
    }

    /// Whether `self` is preferred over `other`.
    pub fn is_better(&self, other: &ImportAction) -> (r: bool)
        ensures
            r == self.spec_is_better(*other),
    {
        match (self, other) {
            (ImportAction::Nothing, _) => true,
            (ImportAction::AddInTreeList { .. }, ImportAction::Nothing) => false,
            (
                ImportAction::AddNestedImport { common_segments: n, .. },
                ImportAction::AddInTreeList { common_segments: m, .. },
            ) => n > m,
            (
                ImportAction::AddInTreeList { common_segments: n, .. },
                ImportAction::AddNestedImport { common_segments: m, .. },
            ) => n > m,
            (ImportAction::AddInTreeList { .. }, _) => true,
            (ImportAction::AddNestedImport { .. }, ImportAction::Nothing) => false,
            (ImportAction::AddNestedImport { .. }, _) => true,
            (ImportAction::AddNewUse { .. }, _) => false,
        }
    }

    /// The preferred one of `left` and `right`; `right` on a tie.
    pub fn better(left: ImportAction, right: ImportAction) -> (r: ImportAction)
        ensures
            r == if left.spec_is_better(right) {
                left
            } else {
                right
            },
    {
        if left.is_better(&right) {
            left
        } else {
            right
        }
    }

    /// Its segment count is within `n` and its arena indices within `trees`,
    /// and its anchor within a text of length `len`.
    pub open spec fn fits(self, n: int, trees: int, len: int) -> bool {
        match self {
            ImportAction::Nothing => true,
            ImportAction::AddNewUse { anchor, .. } => anchor matches Some(a) ==> a.0 <= a.1 <= len,
            ImportAction::AddNestedImport { common_segments, tree, first_segment_to_split, .. } => common_segments
                <= n && tree < trees && (first_segment_to_split matches Some(s) ==> s <= len),
            ImportAction::AddInTreeList { common_segments, list_owner, .. } => common_segments <= n && list_owner
                < trees,
        }
    }
}

/// Whether one of the trees `list` names a path ending in `self`.
pub open spec fn list_has_self(file: FileSyntax, list: Seq<usize>) -> bool {
    exists|k: int|
        0 <= k < list.len() && 0 <= list[k] < file.trees@.len() && {
            let c = #[trigger] file.trees@[list[k] as int];
            c.path@.len() > 0 && c.path@.last().kind == SegmentKind::SelfKw
        }
}

pub open spec fn min_len(a: int, b: int) -> int {
    if a <= b {
        a
    } else {
        b
    }
}

/// The action that [`walk_use_tree_for_best_action`] chooses for tree
/// `tree`, below trees whose path segments are `current`:
/// - a tree without a path cannot be extended: add a new `use` item;
/// - a tree aliased to the target's first segment already imports it;
/// - otherwise the target is compared with `current` and the tree's path,
///   position by position from where `current` ends: no shared segment adds
///   a new `use`; the whole path shared imports it already, unless the tree
///   has a list without `self`, which gets one; a partial match splits the
///   tree's path; a longer target looks into the tree's list, or splits the
///   path after its end.
/// Inside a list, adding a new `use` becomes adding to that list.
pub open spec fn spec_walk(
    file: FileSyntax,
    current: Seq<PathSegment>,
    parent: Option<usize>,
    tree: int,
    target: Seq<PathSegment>,
    item: (usize, usize),
) -> ImportAction
    decreases file.trees@.len() - tree, 1int, 0int,
{
    let new_use = ImportAction::AddNewUse { anchor: Some(item), add_after_anchor: true };
    let text = file.text@;
    if !(0 <= tree < file.trees@.len()) {
        new_use
    } else {
        let node = file.trees@[tree];
        let alias_hit = match node.alias {
            Some((a0, a1)) => target.len() > 0 && target[0].kind == SegmentKind::Name && seg_text(text, target[0])
                == text.subrange(a0 as int, a1 as int),
            None => false,
        };
        if node.path@.len() == 0 {
            new_use
        } else if alias_hit {
            ImportAction::Nothing
        } else {
            let prev_len = current.len();
            let cur = current + node.path@;
            let left_len = target.len() - prev_len;
            let right_len = node.path@.len() as int;
            let common = count_same(
                text,
                target.subrange(prev_len as int, target.len() as int),
                cur.subrange(prev_len as int, cur.len() as int),
                min_len(left_len, right_len),
            );
            let action = if common == 0 {
                new_use
            } else if common == left_len && left_len == right_len {
                match node.list {
                    Some(l) => if list_has_self(file, l@) {
                        ImportAction::Nothing
                    } else {
                        ImportAction::AddInTreeList {
                            common_segments: cur.len() as usize,
                            list_owner: tree as usize,
                            add_self: true,
                        }
                    },
                    None => ImportAction::Nothing,
                }
            } else if common != left_len && left_len == right_len {
                ImportAction::AddNestedImport {
                    common_segments: (prev_len + common) as usize,
                    tree: tree as usize,
                    first_segment_to_split: Some(cur[prev_len + common].start),
                    add_self: false,
                }
            } else if left_len > right_len {
                match node.list {
                    Some(l) => spec_walk_list(file, cur, tree, l@, 0, target, item, new_use),
                    None => ImportAction::AddNestedImport {
                        common_segments: (prev_len + common) as usize,
                        tree: tree as usize,
                        first_segment_to_split: None,
                        add_self: true,
                    },
                }
            } else {
                ImportAction::AddNestedImport {
                    common_segments: (prev_len + common) as usize,
                    tree: tree as usize,
                    first_segment_to_split: Some(cur[prev_len + common].start),
                    add_self: true,
                }
            };
            adjust_for_list(parent, prev_len as int, action)
        }
    }
}

/// Inside the list of tree `parent`, adding a new `use` item becomes adding
/// to that list.
pub open spec fn adjust_for_list(parent: Option<usize>, prev_len: int, action: ImportAction) -> ImportAction {
    match (parent, action) {
        (Some(p), ImportAction::AddNewUse { .. }) => ImportAction::AddInTreeList {
            common_segments: prev_len as usize,
            list_owner: p,
            add_self: false,
        },
        _ => action,
    }
}

/// The best of `better` and the actions for the trees `list[k..]` of the
/// list of tree `tree`, taken in order, a later one winning only where it is
/// better; stops at `Nothing`.
pub open spec fn spec_walk_list(
    file: FileSyntax,
    cur: Seq<PathSegment>,
    tree: int,
    list: Seq<usize>,
    k: int,
    target: Seq<PathSegment>,
    item: (usize, usize),
    better: ImportAction,
) -> ImportAction
    decreases file.trees@.len() - tree, 0int, list.len() - k,
{
    if k < 0 || k >= list.len() || better == ImportAction::Nothing || !(0 <= tree < file.trees@.len()) {
        better
    } else if !(tree < list[k] < file.trees@.len()) {
        spec_walk_list(file, cur, tree, list, k + 1, target, item, better)
    } else {
        let a = spec_walk(file, cur, Some(tree as usize), list[k] as int, target, item);
        let b2 = if a.spec_is_better(better) {
            a
        } else {
            better
        };
        spec_walk_list(file, cur, tree, list, k + 1, target, item, b2)
    }
}

/// The best action over the first `k` top-level `use` items, folded into
/// `best`: each item's action replaces `best` unless `best` is better.
pub open spec fn spec_best(file: FileSyntax, target: Seq<PathSegment>, k: int, best: Option<ImportAction>) -> Option<ImportAction>
    decreases k,
{
    if k <= 0 {
        best
    } else {
        let prev = spec_best(file, target, k - 1, best);
        let u = file.uses@[k - 1];
        match u.tree {
            Some(t) => {
                let a = spec_walk(file, Seq::empty(), None, t as int, target, (u.start, u.end));
                match prev {
                    Some(b) => Some(
                        if b.spec_is_better(a) {
                            b
                        } else {
                            a
                        },
                    ),
                    None => Some(a),
                }
            },
            None => prev,
        }
    }
}

/// The best action for importing `target` given use tree `tree` of the
/// `use` item at `item`, whose enclosing trees' path segments are
/// `current`. `parent` is the tree whose nested list holds `tree`. Nested
/// trees are examined recursively.
pub fn walk_use_tree_for_best_action(
    file: &FileSyntax,
    current: &mut Vec<PathSegment>,
    parent: Option<usize>,
    tree: usize,
    target: &Vec<PathSegment>,
    item: (usize, usize),
) -> (r: ImportAction)
    requires
        file.wf(),
        tree < file.trees@.len(),
        parent matches Some(p) ==> p < file.trees@.len(),
        target@.len() > 0,
        old(current)@.len() <= target@.len(),
        item.0 <= item.1 <= file.text@.len(),
        forall|k: int| 0 <= k < old(current)@.len() ==> #[trigger] segment_fits(old(current)@[k], file.text@.len() as int),
        forall|k: int| 0 <= k < target@.len() ==> #[trigger] segment_fits(target@[k], file.text@.len() as int),
    ensures
        final(current)@ == old(current)@,
        r.fits(target@.len() as int, file.trees@.len() as int, file.text@.len() as int),
        r == spec_walk(*file, old(current)@, parent, tree as int, target@, item),
    decreases file.trees@.len() - tree,
{
    let text = &file.text;
    let n = text.len();
    let prev_len = current.len();
    let node = &file.trees[tree];
    proof {
        reveal(arena_wf);
        assert(file.trees@[tree as int] == *node);
    }
    let new_use = ImportAction::AddNewUse { anchor: Some(item), add_after_anchor: true };
    if node.path.len() == 0 {
        return new_use;
    }
    match node.alias {
        Some((a0, a1)) => {
            if compare_path_segment_with_name(text, &target[0], a0, a1) {
                return ImportAction::Nothing;
            }
        },
        None => {},
    }
    let mut j: usize = 0;
    while j < node.path.len()
        invariant
            file.wf(),
            n == file.text@.len(),
            node == file.trees@[tree as int],
            forall|k: int| 0 <= k < node.path@.len() ==> #[trigger] segment_fits(node.path@[k], n as int),
            j <= node.path@.len(),
            current@.len() == prev_len + j,
            prev_len == old(current)@.len(),
            current@ == old(current)@ + node.path@.subrange(0, j as int),
            current@.subrange(0, prev_len as int) == old(current)@,
            forall|k: int| 0 <= k < current@.len() ==> #[trigger] segment_fits(current@[k], n as int),
        decreases node.path.len() - j,
    {
        current.push(node.path[j]);
        j = j + 1;
        assert(current@ =~= old(current)@ + node.path@.subrange(0, j as int));
        assert(current@.subrange(0, prev_len as int) =~= old(current)@);
    }
    assert(node.path@.subrange(0, j as int) =~= node.path@);
    let ghost cur = current@;
    let left_len = target.len() - prev_len;
    let right_len = current.len() - prev_len;
    let common = compare_path_segments(text, target, prev_len, current, prev_len);
    if common < right_len {
        assert(segment_fits(current@[(prev_len + common) as int], n as int));
    }
    let mut action = if common == 0 {
        new_use
    } else if common == left_len && left_len == right_len {
        match &node.list {
            Some(list) => {
                let mut has_self = false;
                let mut k: usize = 0;
                while k < list.len()
                    invariant
                        file.wf(),
                        k <= list@.len(),
                        node == file.trees@[tree as int],
                        node.list == Some(*list),
                        forall|q: int| 0 <= q < list@.len() ==> tree < #[trigger] list@[q] < file.trees@.len(),
                        has_self == list_has_self(*file, list@.subrange(0, k as int)),
                    decreases list.len() - k,
                {
                    let child = &file.trees[list[k]];
                    let cl = child.path.len();
                    let ghost sub = list@.subrange(0, k as int + 1);
                    assert(sub.subrange(0, k as int) =~= list@.subrange(0, k as int));
                    if cl > 0 && child.path[cl - 1].kind == SegmentKind::SelfKw {
                        has_self = true;
                        assert(sub[k as int] == list@[k as int]);
                    } else {
                        proof {
                            if list_has_self(*file, sub) {
                                let q = choose|q: int|
                                    0 <= q < sub.len() && 0 <= sub[q] < file.trees@.len() && {
                                        let c = #[trigger] file.trees@[sub[q] as int];
                                        c.path@.len() > 0 && c.path@.last().kind == SegmentKind::SelfKw
                                    };
                                if q < k {
                                    assert(list@.subrange(0, k as int)[q] == sub[q]);
                                }
                            }
                        }
                    }
                    k = k + 1;
                }
                assert(list@.subrange(0, k as int) =~= list@);
                if has_self {
                    ImportAction::Nothing
                } else {
                    ImportAction::AddInTreeList { common_segments: current.len(), list_owner: tree, add_self: true }
                }
            },
            None => ImportAction::Nothing,
        }
    } else if common != left_len && left_len == right_len {
        ImportAction::AddNestedImport {
            common_segments: prev_len + common,
            tree,
            first_segment_to_split: Some(current[prev_len + common].start),
            add_self: false,
        }
    } else if left_len > right_len {
        let mut better_action = new_use;
        match &node.list {
            Some(list) => {
                let ghost goal = spec_walk(*file, old(current)@, parent, tree as int, target@, item);
                assert(goal == adjust_for_list(
                    parent,
                    prev_len as int,
                    spec_walk_list(*file, cur, tree as int, list@, 0, target@, item, new_use),
                ));
                let mut k: usize = 0;
                while k < list.len()
                    invariant
                        file.wf(),
                        n == file.text@.len(),
                        k <= list@.len(),
                        node == file.trees@[tree as int],
                        node.list == Some(*list),
                        forall|q: int| 0 <= q < list@.len() ==> tree < #[trigger] list@[q] < file.trees@.len(),
                        current@.len() == prev_len + right_len,
                        prev_len + right_len < target@.len(),
                        current@.subrange(0, prev_len as int) == old(current)@,
                        forall|q: int| 0 <= q < current@.len() ==> #[trigger] segment_fits(current@[q], n as int),
                        better_action.fits(target@.len() as int, file.trees@.len() as int, n as int),
                        better_action != ImportAction::Nothing,
                        current@ == cur,
                        goal == spec_walk(*file, old(current)@, parent, tree as int, target@, item),
                        goal == adjust_for_list(
                            parent,
                            prev_len as int,
                            spec_walk_list(*file, cur, tree as int, list@, 0, target@, item, new_use),
                        ),
                        spec_walk_list(*file, cur, tree as int, list@, 0, target@, item, new_use) == spec_walk_list(
                            *file,
                            cur,
                            tree as int,
                            list@,
                            k as int,
                            target@,
                            item,
                            better_action,
                        ),
                        item.0 <= item.1 <= n,
                        target@.len() > 0,
                        forall|q: int| 0 <= q < target@.len() ==> #[trigger] segment_fits(target@[q], n as int),
                    decreases list.len() - k,
                {
                    let child_action = walk_use_tree_for_best_action(file, current, Some(tree), list[k], target, item);
                    if child_action.is_better(&better_action) {
                        better_action = child_action;
                        if let ImportAction::Nothing = better_action {
                            assert(spec_walk_list(*file, cur, tree as int, list@, k as int + 1, target@, item, better_action)
                                == ImportAction::Nothing);
                            assert(spec_walk_list(*file, cur, tree as int, list@, 0, target@, item, new_use)
                                == ImportAction::Nothing);
                            current.truncate(prev_len);
                            assert(current@ =~= old(current)@);
                            return better_action;
                        }
                    }
                    k = k + 1;
                }
            },
            None => {
                better_action = ImportAction::AddNestedImport {
                    common_segments: prev_len + common,
                    tree,
                    first_segment_to_split: None,
                    add_self: true,
                };
            },
        }
        better_action
    } else {
        ImportAction::AddNestedImport {
            common_segments: prev_len + common,
            tree,
            first_segment_to_split: Some(current[prev_len + common].start),
            add_self: true,
        }
    };
    assert(action.fits(target@.len() as int, file.trees@.len() as int, n as int));
    action = match (parent, action) {
        (Some(p), ImportAction::AddNewUse { .. }) => ImportAction::AddInTreeList {
            common_segments: prev_len,
            list_owner: p,
            add_self: false,
        },
        (_, _) => action,
    };
    current.truncate(prev_len);
    assert(current@ =~= old(current)@);
    action
}

/// The best action over all top-level `use` items of `file`; with none, a
/// new `use` item before the first item, or before the path itself.
pub fn best_action_for_target(file: &FileSyntax, target: &Vec<PathSegment>, path: (usize, usize)) -> (r: ImportAction)
    requires
        file.wf(),
        target@.len() > 0,
        path.0 <= path.1 <= file.text@.len(),
        forall|k: int| 0 <= k < target@.len() ==> #[trigger] segment_fits(target@[k], file.text@.len() as int),
    ensures
        r.fits(target@.len() as int, file.trees@.len() as int, file.text@.len() as int),
        r == match spec_best(*file, target@, file.uses@.len() as int, None) {
            Some(a) => a,
            None => ImportAction::AddNewUse {
                anchor: Some(
                    match file.first_item {
                        Some(range) => range,
                        None => path,
                    },
                ),
                add_after_anchor: false,
            },
        },
{
    let mut storage: Vec<PathSegment> = Vec::new();
    let mut best: Option<ImportAction> = None;
    let mut k: usize = 0;
    while k < file.uses.len()
        invariant
            file.wf(),
            k <= file.uses@.len(),
            target@.len() > 0,
            storage@.len() == 0,
            forall|q: int| 0 <= q < target@.len() ==> #[trigger] segment_fits(target@[q], file.text@.len() as int),
            best matches Some(b) ==> b.fits(target@.len() as int, file.trees@.len() as int, file.text@.len() as int),
            best == spec_best(*file, target@, k as int, None),
        decreases file.uses.len() - k,
    {
        let u = file.uses[k];
        assert(file.uses@[k as int] == u);
        match u.tree {
            Some(t) => {
                assert(storage@ =~= Seq::<PathSegment>::empty());
                let a = walk_use_tree_for_best_action(file, &mut storage, None, t, target, (u.start, u.end));
                best = match best {
                    Some(b) => Some(ImportAction::better(b, a)),
                    None => Some(a),
                };
            },
            None => {},
        }
        k = k + 1;
    }
    match best {
        Some(action) => action,
        None => {
            let anchor = match file.first_item {
                Some(range) => range,
                None => path,
            };
            ImportAction::AddNewUse { anchor: Some(anchor), add_after_anchor: false }
        },
    }
}

/// Appends the characters of `s` to `buf`.
fn push_str(buf: &mut Vec<char>, s: &str)
    ensures
        final(buf)@ == old(buf)@ + s@,
{
    let n = s.unicode_len();
    let mut i: usize = 0;
    while i < n
        invariant
            n == s@.len(),
            i <= n,
            buf@ == old(buf)@ + s@.subrange(0, i as int),
        decreases n - i,
    {
        buf.push(s.get_char(i));
        i = i + 1;
        assert(buf@ =~= old(buf)@ + s@.subrange(0, i as int));
    }
    assert(s@.subrange(0, n as int) =~= s@);
}

/// Appends the characters `start..end` of `text` to `buf`.
fn push_range(buf: &mut Vec<char>, text: &Vec<char>, start: usize, end: usize)
    requires
        start <= end <= text@.len(),
    ensures
        final(buf)@ == old(buf)@ + text@.subrange(start as int, end as int),
{
    let mut i = start;
    while i < end
        invariant
            start <= i <= end <= text@.len(),
            buf@ == old(buf)@ + text@.subrange(start as int, i as int),
        decreases end - i,
    {
        buf.push(text[i]);
        i = i + 1;
        assert(buf@ =~= old(buf)@ + text@.subrange(start as int, i as int));
    }
}

/// Appends the segments `segs[from..]` to `buf`, joined by `::`.
fn fmt_segments_raw(text: &Vec<char>, segs: &Vec<PathSegment>, from: usize, buf: &mut Vec<char>)
    requires
        forall|k: int| 0 <= k < segs@.len() ==> #[trigger] segment_fits(segs@[k], text@.len() as int),
{
    let mut first = true;
    let mut k = from;
    while k < segs.len()
        invariant
            forall|q: int| 0 <= q < segs@.len() ==> #[trigger] segment_fits(segs@[q], text@.len() as int),
        decreases segs.len() - k,
    {
        if !first {
            push_str(buf, "::");
        }
        assert(segment_fits(segs@[k as int], text@.len() as int));
        push_range(buf, text, segs[k].start, segs[k].end);
        first = false;
        k = k + 1;
    }
}

/// The indentation of the line on which position `pos` lies: the spaces and
/// tabs after the last line break before it; `None` on the first line.
pub fn leading_indent(text: &Vec<char>, pos: usize) -> (r: Option<Vec<char>>)
    requires
        pos <= text@.len(),
{
    let mut p = pos;
    while p > 0 && text[p - 1] != '\n'
        invariant
            p <= pos <= text@.len(),
        decreases p,
    {
        p = p - 1;
    }
    if p == 0 {
        return None;
    }
    let mut indent: Vec<char> = Vec::new();
    let mut i = p;
    while i < pos && (text[i] == ' ' || text[i] == '\t')
        invariant
            p <= i <= pos <= text@.len(),
        decreases pos - i,
    {
        indent.push(text[i]);
        i = i + 1;
    }
    Some(indent)
}

/// Appends an insertion of `text` at `offset`.
fn insert_at(edits: &mut Vec<AtomEdit>, offset: usize, text: Vec<char>, n: usize)
    requires
        offset <= n,
        forall|i: int| 0 <= i < old(edits)@.len() ==> (#[trigger] old(edits)@[i]).delete_start <= old(edits)@[i].delete_end <= n,
    ensures
        final(edits)@.len() == old(edits)@.len() + 1,
        forall|i: int| 0 <= i < final(edits)@.len() ==> (#[trigger] final(edits)@[i]).delete_start <= final(edits)@[i].delete_end <= n,
{
    edits.push(AtomEdit::insert(offset, text));
    assert forall|i: int| 0 <= i < edits@.len() implies (#[trigger] edits@[i]).delete_start <= edits@[i].delete_end <= n by {
        if i < old(edits)@.len() {
            assert(edits@[i] == old(edits)@[i]);
        }
    }
}

pub open spec fn edits_fit(edits: Seq<AtomEdit>, n: int) -> bool {
    forall|i: int| 0 <= i < edits.len() ==> (#[trigger] edits[i]).delete_start <= edits[i].delete_end <= n
}

/// A new `use` item for `target`: after `anchor`, on a line of its own with
/// the anchor's indentation, or before it, followed by a blank line.
fn make_assist_add_new_use(
    file: &FileSyntax,
    anchor: Option<(usize, usize)>,
    after: bool,
    target: &Vec<PathSegment>,
    edits: &mut Vec<AtomEdit>,
)
    requires
        file.wf(),
        anchor matches Some(a) ==> a.0 <= a.1 <= file.text@.len(),
        forall|k: int| 0 <= k < target@.len() ==> #[trigger] segment_fits(target@[k], file.text@.len() as int),
        edits_fit(old(edits)@, file.text@.len() as int),
    ensures
        edits_fit(final(edits)@, file.text@.len() as int),
{
    let text = &file.text;
    if let Some((start, end)) = anchor {
        let indent = leading_indent(text, start);
        let mut buf: Vec<char> = Vec::new();
        if after {
            push_str(&mut buf, "\n");
            if let Some(spaces) = &indent {
                let mut i: usize = 0;
                while i < spaces.len()
                    decreases spaces.len() - i,
                {
                    buf.push(spaces[i]);
                    i = i + 1;
                }
            }
        }
        push_str(&mut buf, "use ");
        fmt_segments_raw(text, target, 0, &mut buf);
        push_str(&mut buf, ";");
        if !after {
            push_str(&mut buf, "\n\n");
            if let Some(spaces) = &indent {
                let mut i: usize = 0;
                while i < spaces.len()
                    decreases spaces.len() - i,
                {
                    buf.push(spaces[i]);
                    i = i + 1;
                }
            }
        }
        let position = if after {
            end
        } else {
            start
        };
        insert_at(edits, position, buf, text.len());
    }
}

/// Adds `target[from..]` to the nested list of use tree `owner`, after its
/// last tree.
fn make_assist_add_in_tree_list(
    file: &FileSyntax,
    owner: usize,
    target: &Vec<PathSegment>,
    from: usize,
    add_self: bool,
    edits: &mut Vec<AtomEdit>,
)
    requires
        file.wf(),
        owner < file.trees@.len(),
        forall|k: int| 0 <= k < target@.len() ==> #[trigger] segment_fits(target@[k], file.text@.len() as int),
        edits_fit(old(edits)@, file.text@.len() as int),
    ensures
        edits_fit(final(edits)@, file.text@.len() as int),
{
    let text = &file.text;
    proof {
        reveal(arena_wf);
    }
    let node = &file.trees[owner];
    if let Some(list) = &node.list {
        if list.len() > 0 {
            let last = &file.trees[list[list.len() - 1]];
            let mut buf: Vec<char> = Vec::new();
            let offset = match node.comma_after_last {
                Some(c) => c,
                None => {
                    push_str(&mut buf, ",");
                    last.end
                },
            };
            if add_self {
                push_str(&mut buf, " self");
            } else {
                push_str(&mut buf, " ");
            }
            fmt_segments_raw(text, target, from, &mut buf);
            insert_at(edits, offset, buf, text.len());
        }
    }
}

/// Splits the path of use tree `tree` at `first_split` (or after its end)
/// into a nested list holding `self` if asked, `target[from..]`, and the
/// rest of the old path.
fn make_assist_add_nested_import(
    file: &FileSyntax,
    tree: usize,
    first_split: Option<usize>,
    target: &Vec<PathSegment>,
    from: usize,
    add_self: bool,
    edits: &mut Vec<AtomEdit>,
)
    requires
        file.wf(),
        tree < file.trees@.len(),
        first_split matches Some(s) ==> s <= file.text@.len(),
        forall|k: int| 0 <= k < target@.len() ==> #[trigger] segment_fits(target@[k], file.text@.len() as int),
        edits_fit(old(edits)@, file.text@.len() as int),
    ensures
        edits_fit(final(edits)@, file.text@.len() as int),
{
    let text = &file.text;
    proof {
        reveal(arena_wf);
    }
    let node = &file.trees[tree];
    let (start, add_colon_colon) = match first_split {
        Some(s) => (s, false),
        None => (node.end, true),
    };
    let end = node.end;
    let mut buf: Vec<char> = Vec::new();
    if add_colon_colon {
        push_str(&mut buf, "::");
    }
    push_str(&mut buf, "{ ");
    if add_self {
        push_str(&mut buf, "self, ");
    }
    fmt_segments_raw(text, target, from, &mut buf);
    if from < target.len() {
        push_str(&mut buf, ", ");
    }
    insert_at(edits, start, buf, text.len());
    let mut close: Vec<char> = Vec::new();
    push_str(&mut close, "}");
    insert_at(edits, end, close, text.len());
}

/// The edits that carry out `action` for `target`.
fn make_assist(file: &FileSyntax, action: ImportAction, target: &Vec<PathSegment>, edits: &mut Vec<AtomEdit>)
    requires
        file.wf(),
        action.fits(target@.len() as int, file.trees@.len() as int, file.text@.len() as int),
        forall|k: int| 0 <= k < target@.len() ==> #[trigger] segment_fits(target@[k], file.text@.len() as int),
        edits_fit(old(edits)@, file.text@.len() as int),
    ensures
        edits_fit(final(edits)@, file.text@.len() as int),
{
    match action {
        ImportAction::AddNewUse { anchor, add_after_anchor } => {
            make_assist_add_new_use(file, anchor, add_after_anchor, target, edits);
        },
        ImportAction::AddInTreeList { common_segments, list_owner, add_self } => {
            make_assist_add_in_tree_list(file, list_owner, target, common_segments, add_self, edits);
        },
        ImportAction::AddNestedImport { common_segments, tree, first_segment_to_split, add_self } => {
            make_assist_add_nested_import(file, tree, first_segment_to_split, target, common_segments, add_self, edits);
        },
        ImportAction::Nothing => {},
    }
}

/// The last token of the `use` item whose keyword is token `i`: its `;`, or
/// the last token of the text.
pub open spec fn use_end(toks: Seq<Token>, i: int) -> int {
    let s = semi_from(toks, i + 1);
    if s < toks.len() {
        s
    } else {
        toks.len() - 1
    }
}

/// Whether token `i` is a `use` keyword whose item holds position `pos`.
pub open spec fn use_item_holds(text: Seq<char>, toks: Seq<Token>, i: int, pos: int) -> bool {
    &&& 0 <= i < toks.len()
    &&& toks[i].kind == TokenKind::Ident
    &&& text.subrange(toks[i].start as int, toks[i].end as int) == "use"@
    &&& toks[i].start <= pos < toks[use_end(toks, i)].end
}

/// Whether position `pos` lies in a `use` item, at any depth.
pub open spec fn in_use_item(text: Seq<char>, toks: Seq<Token>, pos: int) -> bool {
    exists|i: int| #[trigger] use_item_holds(text, toks, i, pos)
}

/// Whether position `pos` lies in a `use` item; see [`in_use_item`].
fn inside_use(file: &FileSyntax, pos: usize) -> (r: bool)
    requires
        file.wf(),
    ensures
        r == in_use_item(file.text@, file.tokens@, pos as int),
{
    let toks = &file.tokens;
    let text = &file.text;
    let n = text.len();
    let len = toks.len();
    let mut i: usize = 0;
    while i < len
        invariant
            len == toks@.len(),
            n == text@.len(),
            tokens_cover(toks@, n as int),
            i <= len,
            toks@ == file.tokens@,
            text@ == file.text@,
            forall|q: int| 0 <= q < i ==> !#[trigger] use_item_holds(text@, toks@, q, pos as int),
        decreases len - i,
    {
        let t = toks[i];
        proof {
            lemma_token_in_text(toks@, n as int, i as int);
        }
        if t.kind == TokenKind::Ident && text_is(text, t.start, t.end, "use") {
            let semi = find_semi(toks, i + 1);
            let last = if semi < len {
                semi
            } else {
                len - 1
            };
            if t.start <= pos && pos < toks[last].end {
                assert(use_item_holds(file.text@, file.tokens@, i as int, pos as int));
                assert(in_use_item(file.text@, file.tokens@, pos as int));
                return true;
            }
        }
        assert(!use_item_holds(text@, toks@, i as int, pos as int));
        i = i + 1;
    }
    assert forall|q: int| !#[trigger] use_item_holds(text@, toks@, q, pos as int) by {
        if 0 <= q < len {
        }
    }
    false
}

/// Imports the qualified path at `offset` of `text`: adds a `use` for it,
/// merging into an existing `use` item where one shares a prefix, and drops
/// the qualifier from the path. `None` exactly where no path holds `offset`
/// (see [`spec_path_at`]), the path lies in a `use` item, or it has fewer
/// than two segments. Otherwise the edit deletes the qualifier, from the
/// path's start to its last segment, and carries out the action of
/// [`best_action_for_target`].
pub fn auto_import(text: &str, offset: usize) -> (r: Option<AssistAction>)
    ensures
        match spec_path_at(text@, offset as int) {
            None => r is None,
            Some((k, t)) => {
                let toks = spec_tokens(text@);
                if in_use_item(text@, toks, toks[k].start as int) || t - k < 2 {
                    r is None
                } else {
                    r matches Some(a) && a.cursor_position is None && edits_fit(a.edit.atoms@, text@.len() as int)
                }
            },
        },
{
    let file = parse_file(chars_of(text));
    let n = file.text.len();
    let (segments, path_start) = match path_at(&file, offset) {
        Some(p) => p,
        None => {
            return None;
        },
    };
    if inside_use(&file, path_start) {
        return None;
    }
    if segments.len() < 2 {
        return None;
    }
    let last = segments[segments.len() - 1];
    assert(segment_fits(segments@[segments@.len() - 1], n as int));
    assert(segment_fits(segments@[0], n as int));
    let action = best_action_for_target(&file, &segments, (path_start, last.end));
    let mut atoms: Vec<AtomEdit> = Vec::new();
    make_assist(&file, action, &segments, &mut atoms);
    let ghost before = atoms@;
    atoms.push(AtomEdit::delete(path_start, last.start));
    assert forall|i: int| 0 <= i < atoms@.len() implies (#[trigger] atoms@[i]).delete_start <= atoms@[i].delete_end <= n by {
        if i < before.len() {
            assert(atoms@[i] == before[i]);
        }
    }
    let edit = TextEdit::from_atoms(atoms, n);
    Some(AssistAction { edit, cursor_position: None, target: None })
}

} // verus!
