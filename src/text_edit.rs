use vstd::prelude::*;

verus! {

/// Replaces the characters `delete_start..delete_end` with `insert`.
pub struct AtomEdit {
    pub delete_start: usize,
    pub delete_end: usize,
    pub insert: Vec<char>,
}

/// A set of atom edits on one text, ordered by position and not overlapping.
pub struct TextEdit {
    pub atoms: Vec<AtomEdit>,
}

/// The atoms are ordered, do not overlap, and lie within a text of length `n`.
pub open spec fn atoms_fit(atoms: Seq<AtomEdit>, n: int) -> bool {
    &&& forall|i: int| 0 <= i < atoms.len() ==> #[trigger] atoms[i].delete_start <= atoms[i].delete_end
    &&& forall|i: int| 0 <= i < atoms.len() ==> #[trigger] atoms[i].delete_end <= n
    &&& forall|i: int| 0 <= i < atoms.len() - 1 ==> #[trigger] atoms[i].delete_end <= atoms[i + 1].delete_start
}

/// `text` with the first `k` atoms applied, up to the end of atom `k - 1`.
pub open spec fn applied_prefix(text: Seq<char>, atoms: Seq<AtomEdit>, k: int) -> Seq<char>
    decreases k,
{
    if k <= 0 {
        Seq::empty()
    } else {
        let prev_end = if k >= 2 {
            atoms[k - 2].delete_end as int
        } else {
            0
        };
        applied_prefix(text, atoms, k - 1) + text.subrange(prev_end, atoms[k - 1].delete_start as int)
            + atoms[k - 1].insert@
    }
}

/// `text` with all atoms applied.
pub open spec fn spec_apply(text: Seq<char>, atoms: Seq<AtomEdit>) -> Seq<char> {
    let last_end = if atoms.len() > 0 {
        atoms.last().delete_end as int
    } else {
        0
    };
    applied_prefix(text, atoms, atoms.len() as int) + text.subrange(last_end, text.len() as int)
}

/// Where position `offset` moves to once the first `k` atoms are applied;
/// `None` when an atom deletes around it. Atoms that start at or after the
/// offset leave it in place.
pub open spec fn spec_offset(atoms: Seq<AtomEdit>, offset: int, k: int) -> Option<int>
    decreases k,
{
    if k <= 0 {
        Some(offset)
    } else {
        match spec_offset(atoms, offset, k - 1) {
            None => None,
            Some(o) => {
                let a = atoms[k - 1];
                if a.delete_start >= offset {
                    Some(o)
                } else if offset < a.delete_end {
                    None
                } else {
                    Some(o + a.insert@.len() - (a.delete_end - a.delete_start))
                }
            },
        }
    }
}

impl AtomEdit {
    pub fn insert(offset: usize, text: Vec<char>) -> (r: AtomEdit)
        ensures
            r.delete_start == offset,
            r.delete_end == offset,
            r.insert@ == text@,
    {
        AtomEdit { delete_start: offset, delete_end: offset, insert: text }
    }

    pub fn delete(start: usize, end: usize) -> (r: AtomEdit)
        ensures
            r.delete_start == start,
            r.delete_end == end,
            r.insert@.len() == 0,
    {
        AtomEdit { delete_start: start, delete_end: end, insert: Vec::new() }
    }
}

impl TextEdit {
    /// Orders `atoms` by start, then end, keeping the given order among
    /// equal positions.
    pub fn from_atoms(atoms: Vec<AtomEdit>, n: usize) -> (r: TextEdit)
        requires
            forall|i: int| 0 <= i < atoms@.len() ==> (#[trigger] atoms@[i]).delete_start <= atoms@[i].delete_end <= n,
        ensures
            r.atoms@.len() == atoms@.len(),
            forall|i: int| 0 <= i < r.atoms@.len() ==> (#[trigger] r.atoms@[i]).delete_start <= r.atoms@[i].delete_end <= n,
            forall|i: int|
                0 <= i < r.atoms@.len() - 1 ==> (#[trigger] r.atoms@[i]).delete_start < r.atoms@[i + 1].delete_start
                    || (r.atoms@[i].delete_start == r.atoms@[i + 1].delete_start && r.atoms@[i].delete_end
                    <= r.atoms@[i + 1].delete_end),
    {
        let mut sorted: Vec<AtomEdit> = Vec::new();
        let mut rest = atoms;
        let ghost total = rest@.len();
        while rest.len() > 0
            invariant
                sorted@.len() + rest@.len() == total,
                forall|i: int| 0 <= i < rest@.len() ==> (#[trigger] rest@[i]).delete_start <= rest@[i].delete_end <= n,
                forall|i: int| 0 <= i < sorted@.len() ==> (#[trigger] sorted@[i]).delete_start <= sorted@[i].delete_end <= n,
                forall|i: int|
                    0 <= i < sorted@.len() - 1 ==> (#[trigger] sorted@[i]).delete_start < sorted@[i + 1].delete_start
                        || (sorted@[i].delete_start == sorted@[i + 1].delete_start && sorted@[i].delete_end
                        <= sorted@[i + 1].delete_end),
            decreases rest.len(),
        {
            let ghost old_rest = rest@;
            assert(rest@[0].delete_start <= rest@[0].delete_end <= n);
            let a = rest.remove(0);
            assert forall|i: int| 0 <= i < rest@.len() implies (#[trigger] rest@[i]).delete_start <= rest@[i].delete_end <= n by {
                assert(rest@[i] == old_rest[i + 1]);
            }
            // position after every atom that is not after `a`
            let mut pos: usize = sorted.len();
            while pos > 0 && (sorted[pos - 1].delete_start > a.delete_start || (sorted[pos - 1].delete_start
                == a.delete_start && sorted[pos - 1].delete_end > a.delete_end))
                invariant
                    pos <= sorted@.len(),
                    forall|j: int|
                        pos <= j < sorted@.len() ==> (#[trigger] sorted@[j]).delete_start > a.delete_start || (
                        sorted@[j].delete_start == a.delete_start && sorted@[j].delete_end > a.delete_end),
                decreases pos,
            {
                pos = pos - 1;
            }
            let ghost before = sorted@;
            sorted.insert(pos, a);
            assert forall|i: int| 0 <= i < sorted@.len() implies (#[trigger] sorted@[i]).delete_start <= sorted@[i].delete_end <= n by {
                if i < pos {
                    assert(sorted@[i] == before[i]);
                } else if i > pos {
                    assert(sorted@[i] == before[i - 1]);
                }
            }
            assert forall|i: int| 0 <= i < sorted@.len() - 1 implies (#[trigger] sorted@[i]).delete_start
                < sorted@[i + 1].delete_start || (sorted@[i].delete_start == sorted@[i + 1].delete_start
                && sorted@[i].delete_end <= sorted@[i + 1].delete_end) by {
                if i + 1 < pos {
                    assert(sorted@[i] == before[i] && sorted@[i + 1] == before[i + 1]);
                } else if i + 1 == pos {
                    assert(sorted@[i] == before[i]);
                } else if i == pos {
                    assert(sorted@[i + 1] == before[i]);
                } else {
                    assert(sorted@[i] == before[i - 1] && sorted@[i + 1] == before[i]);
                }
            }
        }
        TextEdit { atoms: sorted }
    }

    /// Applies the edit to `text`.
    pub fn apply(&self, text: &Vec<char>) -> (r: Vec<char>)
        requires
            atoms_fit(self.atoms@, text@.len() as int),
        ensures
            r@ == spec_apply(text@, self.atoms@),
    {
        let mut out: Vec<char> = Vec::new();
        let mut prev: usize = 0;
        let mut k: usize = 0;
        while k < self.atoms.len()
            invariant
                atoms_fit(self.atoms@, text@.len() as int),
                k <= self.atoms@.len(),
                prev == (if k >= 1 {
                    self.atoms@[k - 1].delete_end as int
                } else {
                    0
                }),
                prev <= text@.len(),
                out@ == applied_prefix(text@, self.atoms@, k as int),
            decreases self.atoms.len() - k,
        {
            let a = &self.atoms[k];
            proof {
                if k >= 1 {
                    assert(self.atoms@[k - 1].delete_end <= self.atoms@[k as int].delete_start);
                }
                assert(a.delete_start <= a.delete_end);
            }
            let ghost start_out = out@;
            let mut i = prev;
            while i < a.delete_start
                invariant
                    prev <= i <= a.delete_start <= text@.len(),
                    out@ == start_out + text@.subrange(prev as int, i as int),
                decreases a.delete_start - i,
            {
                out.push(text[i]);
                i = i + 1;
                assert(out@ =~= start_out + text@.subrange(prev as int, i as int));
            }
            let ghost mid_out = out@;
            let mut j: usize = 0;
            while j < a.insert.len()
                invariant
                    j <= a.insert@.len(),
                    out@ == mid_out + a.insert@.subrange(0, j as int),
                decreases a.insert.len() - j,
            {
                out.push(a.insert[j]);
                j = j + 1;
                assert(out@ =~= mid_out + a.insert@.subrange(0, j as int));
            }
            assert(a.insert@.subrange(0, j as int) =~= a.insert@);
            prev = a.delete_end;
            k = k + 1;
        }
        let ghost start_out = out@;
        let mut i = prev;
        while i < text.len()
            invariant
                prev <= i <= text@.len(),
                out@ == start_out + text@.subrange(prev as int, i as int),
            decreases text.len() - i,
        {
            out.push(text[i]);
            i = i + 1;
            assert(out@ =~= start_out + text@.subrange(prev as int, i as int));
        }
        out
    }

    /// Where `offset` of the old text lies in the edited text; `None` when
    /// an atom deletes around it.
    pub fn apply_to_offset(&self, offset: usize) -> (r: Option<usize>)
        requires
            atoms_fit(self.atoms@, usize::MAX as int),
            offset + inserted_len(self.atoms@, self.atoms@.len() as int) <= usize::MAX,
        ensures
            match spec_offset(self.atoms@, offset as int, self.atoms@.len() as int) {
                Some(o) => r == Some(o as usize),
                None => r is None,
            },
    {
        let mut res: usize = offset;
        let ghost mut del: int = 0;
        let mut k: usize = 0;
        while k < self.atoms.len()
            invariant
                atoms_fit(self.atoms@, usize::MAX as int),
                offset + inserted_len(self.atoms@, self.atoms@.len() as int) <= usize::MAX,
                k <= self.atoms@.len(),
                spec_offset(self.atoms@, offset as int, k as int) == Some(res as int),
                0 <= del,
                res + del <= offset + inserted_len(self.atoms@, k as int),
                res + del >= offset,
                del <= (if k >= 1 { self.atoms@[k - 1].delete_end as int } else { 0 }),
                k >= 1 ==> self.atoms@[k - 1].delete_start < offset ==> self.atoms@[k - 1].delete_end <= offset,
            decreases self.atoms.len() - k,
        {
            let a = &self.atoms[k];
            proof {
                lemma_inserted_len_mono(self.atoms@, k as int + 1, self.atoms@.len() as int);
                if k >= 1 {
                    assert(self.atoms@[k - 1].delete_end <= self.atoms@[k as int].delete_start);
                }
            }
            if a.delete_start >= offset {
                k = k + 1;
                continue;
            }
            if offset < a.delete_end {
                proof {
                    lemma_offset_stays_none(self.atoms@, offset as int, k as int + 1, self.atoms@.len() as int);
                }
                return None;
            }
            proof {
                del = del + (a.delete_end - a.delete_start);
            }
            res = res + a.insert.len() - (a.delete_end - a.delete_start);
            k = k + 1;
        }
        Some(res)
    }
}

/// Total length of the text inserted by the first `k` atoms.
pub open spec fn inserted_len(atoms: Seq<AtomEdit>, k: int) -> int
    decreases k,
{
    if k <= 0 {
        0
    } else {
        inserted_len(atoms, k - 1) + atoms[k - 1].insert@.len()
    }
}

proof fn lemma_inserted_len_mono(atoms: Seq<AtomEdit>, k: int, k2: int)
    requires
        0 <= k <= k2,
    ensures
        inserted_len(atoms, k) <= inserted_len(atoms, k2),
    decreases k2 - k,
{
    if k < k2 {
        lemma_inserted_len_mono(atoms, k, k2 - 1);
    }
}

proof fn lemma_offset_stays_none(atoms: Seq<AtomEdit>, offset: int, k: int, k2: int)
    requires
        0 <= k <= k2,
        spec_offset(atoms, offset, k) is None,
    ensures
        spec_offset(atoms, offset, k2) is None,
    decreases k2 - k,
{
    if k < k2 {
        lemma_offset_stays_none(atoms, offset, k, k2 - 1);
    }
}

/// An edit offered by an assist, where it leaves the cursor if it moves it,
/// and the range it is about.
pub struct AssistAction {
    pub edit: TextEdit,
    pub cursor_position: Option<usize>,
    pub target: Option<(usize, usize)>,
}

} // verus!
