//! Text edits: sorted, pairwise disjoint replacements applied atomically,
//! plus one optional cursor-target range.

use vstd::prelude::*;

use crate::text::TextRange;

verus! {

/// One replacement: the source covered by `range` becomes `insert`.
pub struct Replacement {
    pub range: TextRange,
    pub insert: Vec<u8>,
}

/// A prospective text edit. The replacements never overlap and are kept
/// sorted by position; the target range says where the cursor should rest
/// after application (for a swap: on the unchanged separator).
pub struct Edit {
    pub replacements: Vec<Replacement>,
    pub target: Option<TextRange>,
}

impl Edit {
    /// Ranges are proper intervals, sorted and pairwise disjoint.
    pub open spec fn ranges_wf(self) -> bool {
        let reps = self.replacements@;
        &&& forall|k: int| 0 <= k < reps.len() ==> (#[trigger] reps[k].range).wf()
        &&& forall|k: int|
            0 <= k < reps.len() - 1 ==> (#[trigger] reps[k].range).before(reps[k + 1].range)
    }

    /// Additionally, every range fits inside a source of length `n`.
    pub open spec fn wf_for(self, n: int) -> bool {
        &&& self.ranges_wf()
        &&& forall|k: int|
            0 <= k < self.replacements@.len() ==> (#[trigger] self.replacements@[k].range).end <= n
    }

    /// What applying `reps` to the suffix of `s` starting at `from` yields.
    pub open spec fn apply_from(s: Seq<u8>, reps: Seq<Replacement>, from: int) -> Seq<u8>
        decreases reps.len(),
    {
        if reps.len() == 0 {
            s.subrange(from, s.len() as int)
        } else {
            s.subrange(from, reps[0].range.start as int) + reps[0].insert@ + Self::apply_from(
                s,
                reps.skip(1),
                reps[0].range.end as int,
            )
        }
    }

    /// The atomic application of the whole edit to `s`.
    pub open spec fn apply_spec(self, s: Seq<u8>) -> Seq<u8> {
        Self::apply_from(s, self.replacements@, 0)
    }

    /// Applies the edit to the source, producing the new text.
    #[verifier::loop_isolation(false)]
    pub fn apply(&self, source: &Vec<u8>) -> (r: Vec<u8>)
        requires
            self.wf_for(source@.len() as int),
        ensures
            r@ == self.apply_spec(source@),
    {
        let s_len = source.len();
        let n = self.replacements.len();
        let mut out: Vec<u8> = Vec::new();
        let mut pos: usize = 0;
        let mut k: usize = 0;
        proof {
            assert(self.replacements@.skip(0) =~= self.replacements@);
            assert(out@ + Self::apply_from(source@, self.replacements@, 0) =~= Self::apply_from(
                source@,
                self.replacements@,
                0,
            ));
        }
        while k < n
            invariant
                k <= n,
                pos <= s_len,
                k < n ==> pos <= self.replacements@[k as int].range.start,
                Self::apply_from(source@, self.replacements@, 0) == out@ + Self::apply_from(
                    source@,
                    self.replacements@.skip(k as int),
                    pos as int,
                ),
            decreases n - k,
        {
            let ghost reps = self.replacements@;
            let ghost out0 = out@;
            let rep = &self.replacements[k];
            let start = rep.range.start;
            let mut j: usize = pos;
            while j < start
                invariant
                    pos <= j <= start <= s_len,
                    out@ == out0 + source@.subrange(pos as int, j as int),
                decreases start - j,
            {
                out.push(source[j]);
                proof {
                    assert(source@.subrange(pos as int, j + 1 as int) =~= source@.subrange(
                        pos as int,
                        j as int,
                    ).push(source@[j as int]));
                }
                j = j + 1;
            }
            let ghost out1 = out@;
            let m = rep.insert.len();
            let mut t: usize = 0;
            while t < m
                invariant
                    t <= m,
                    out@ == out1 + rep.insert@.subrange(0, t as int),
                decreases m - t,
            {
                out.push(rep.insert[t]);
                proof {
                    assert(rep.insert@.subrange(0, t + 1 as int) =~= rep.insert@.subrange(
                        0,
                        t as int,
                    ).push(rep.insert@[t as int]));
                }
                t = t + 1;
            }
            proof {
                assert(rep.insert@.subrange(0, m as int) =~= rep.insert@);
                assert(reps.skip(k as int)[0] == reps[k as int]);
                assert(reps.skip(k as int).skip(1) =~= reps.skip(k as int + 1));
                assert(out@ + Self::apply_from(source@, reps.skip(k as int + 1), rep.range.end as int)
                    =~= out0 + Self::apply_from(source@, reps.skip(k as int), pos as int));
            }
            pos = rep.range.end;
            k = k + 1;
        }
        let ghost out2 = out@;
        let mut j: usize = pos;
        while j < s_len
            invariant
                pos <= j <= s_len,
                out@ == out2 + source@.subrange(pos as int, j as int),
            decreases s_len - j,
        {
            out.push(source[j]);
            proof {
                assert(source@.subrange(pos as int, j + 1 as int) =~= source@.subrange(
                    pos as int,
                    j as int,
                ).push(source@[j as int]));
            }
            j = j + 1;
        }
        proof {
            assert(self.replacements@.skip(n as int) =~= Seq::<Replacement>::empty());
            assert(out@ =~= out2 + Self::apply_from(
                source@,
                self.replacements@.skip(n as int),
                pos as int,
            ));
        }
        out
    }

    /// Bytes that replacements ending at or before `pos` remove.
    pub open spec fn removed_before(reps: Seq<Replacement>, pos: int) -> int
        decreases reps.len(),
    {
        if reps.len() == 0 {
            0
        } else {
            (if reps[0].range.end <= pos {
                reps[0].range.spec_len()
            } else {
                0
            }) + Self::removed_before(reps.skip(1), pos)
        }
    }

    /// Bytes that replacements ending at or before `pos` insert.
    pub open spec fn inserted_before(reps: Seq<Replacement>, pos: int) -> int
        decreases reps.len(),
    {
        if reps.len() == 0 {
            0
        } else {
            (if reps[0].range.end <= pos {
                reps[0].insert@.len() as int
            } else {
                0
            }) + Self::inserted_before(reps.skip(1), pos)
        }
    }

    pub proof fn lemma_sums_nonneg(reps: Seq<Replacement>, pos: int)
        requires
            forall|k: int| 0 <= k < reps.len() ==> (#[trigger] reps[k].range).wf(),
        ensures
            Self::removed_before(reps, pos) >= 0,
            Self::inserted_before(reps, pos) >= 0,
        decreases reps.len(),
    {
        if reps.len() > 0 {
            Self::lemma_sums_nonneg(reps.skip(1), pos);
        }
    }

    /// The offset falls strictly inside some replaced range, where no
    /// stable post-edit position exists.
    pub open spec fn offset_in_replacement(reps: Seq<Replacement>, pos: int) -> bool {
        exists|k: int|
            0 <= k < reps.len() && (#[trigger] reps[k].range).start < pos < reps[k].range.end
    }

    /// Where a pre-edit offset lands after the edit is applied: shifted by
    /// every replacement that ends at or before it, unless it sat inside
    /// replaced text.
    pub open spec fn apply_to_offset_spec(self, pos: int) -> Option<int> {
        if Self::offset_in_replacement(self.replacements@, pos) {
            Option::None
        } else {
            Option::Some(
                pos - Self::removed_before(self.replacements@, pos) + Self::inserted_before(
                    self.replacements@,
                    pos,
                ),
            )
        }
    }

    /// Maps a pre-edit offset to its post-edit position, so a cursor can
    /// stay visually anchored across the application.
    #[verifier::loop_isolation(false)]
    pub fn apply_to_offset(&self, offset: usize) -> (r: Option<usize>)
        requires
            self.ranges_wf(),
            offset + Self::inserted_before(self.replacements@, offset as int) <= usize::MAX,
        ensures
            self.apply_to_offset_spec(offset as int) == match r {
                Option::Some(u) => Option::Some(u as int),
                Option::None => Option::None::<int>,
            },
    {
        let ghost reps = self.replacements@;
        let n = self.replacements.len();
        let mut removed: usize = 0;
        let mut inserted: usize = 0;
        let mut k: usize = 0;
        proof {
            assert(reps.skip(0) =~= reps);
        }
        while k < n
            invariant
                k <= n,
                removed <= offset,
                k < n ==> removed <= self.replacements@[k as int].range.start,
                forall|m: int|
                    0 <= m < k ==> !((#[trigger] reps[m].range).start < offset
                        < reps[m].range.end),
                Self::removed_before(reps, offset as int) == removed + Self::removed_before(
                    reps.skip(k as int),
                    offset as int,
                ),
                Self::inserted_before(reps, offset as int) == inserted + Self::inserted_before(
                    reps.skip(k as int),
                    offset as int,
                ),
            decreases n - k,
        {
            let rep = &self.replacements[k];
            if rep.range.start < offset && offset < rep.range.end {
                return None;
            }
            proof {
                assert(reps.skip(k as int)[0] == reps[k as int]);
                assert(reps.skip(k as int).skip(1) =~= reps.skip(k as int + 1));
                Self::lemma_sums_nonneg(reps.skip(k as int + 1), offset as int);
            }
            if rep.range.end <= offset {
                removed = removed + (rep.range.end - rep.range.start);
                inserted = inserted + rep.insert.len();
            }
            k = k + 1;
        }
        proof {
            assert(reps.skip(n as int) =~= Seq::<Replacement>::empty());
        }
        Some(offset - removed + inserted)
    }
}

} // verus!
