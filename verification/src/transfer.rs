//! Carrying cell data over an adaptation of a tree: the quadrants of the
//! tree before and after, each in order with its refinement level, are
//! walked side by side. A quadrant that kept its level copies its data; one
//! that was refined hands its data to its four children; four siblings that
//! were coarsened hand theirs to their parent.

use vstd::prelude::*;

use crate::consts::CELL_CORNERS;

verus! {

/// One step of a transfer: positions in the tree's quadrant arrays before
/// (`old`) and after (`new`) the adaptation. `Refine` covers the new
/// quadrants `new .. new + 4`, `Coarsen` the old quadrants `old .. old + 4`.
#[derive(PartialEq, Eq, Structural, Clone, Copy, Debug)]
pub enum TransferStep {
    Copy { old: usize, new: usize },
    Refine { old: usize, new: usize },
    Coarsen { old: usize, new: usize },
}

/// Why the quadrants before and after cannot be matched.
#[derive(PartialEq, Eq, Structural, Clone, Copy, Debug)]
pub enum TransferError {
    /// Two quadrants met whose levels differ by more than one.
    LevelMismatch { old_level: i8, new_level: i8 },
    /// The walk ran past the end of one of the quadrant arrays.
    OutOfRange,
}

/// `Ok(prefix + rest)` when `r` is `Ok(rest)`.
pub open spec fn prepend_steps(
    prefix: Seq<TransferStep>,
    r: Result<Seq<TransferStep>, TransferError>,
) -> Result<Seq<TransferStep>, TransferError> {
    match r {
        Ok(rest) => Ok(prefix + rest),
        Err(e) => Err(e),
    }
}

/// The walk from old position `p` and new position `n` on; it stops as
/// soon as either array is used up.
pub open spec fn transfer_from(old: Seq<i8>, new: Seq<i8>, p: int, n: int) -> Result<
    Seq<TransferStep>,
    TransferError,
>
    decreases old.len() - p + new.len() - n,
{
    if !(0 <= p < old.len() && 0 <= n < new.len()) {
        Err(TransferError::OutOfRange)
    } else {
        let lo = old[p] as int;
        let ln = new[n] as int;
        let next: Result<(TransferStep, int, int), TransferError> = if lo == ln {
            Ok((TransferStep::Copy { old: p as usize, new: n as usize }, p + 1, n + 1))
        } else if lo + 1 == ln {
            if n + CELL_CORNERS <= new.len() {
                Ok((TransferStep::Refine { old: p as usize, new: n as usize }, p + 1, n + CELL_CORNERS))
            } else {
                Err(TransferError::OutOfRange)
            }
        } else if lo == ln + 1 {
            if p + CELL_CORNERS <= old.len() {
                Ok((TransferStep::Coarsen { old: p as usize, new: n as usize }, p + CELL_CORNERS, n + 1))
            } else {
                Err(TransferError::OutOfRange)
            }
        } else {
            Err(TransferError::LevelMismatch { old_level: old[p], new_level: new[n] })
        };
        match next {
            Err(e) => Err(e),
            Ok((step, p2, n2)) => if p2 >= old.len() || n2 >= new.len() {
                Ok(seq![step])
            } else {
                prepend_steps(seq![step], transfer_from(old, new, p2, n2))
            },
        }
    }
}

/// The steps that carry data from the quadrants of a tree before an
/// adaptation (`old`, their levels in order) to those after (`new`).
pub open spec fn transfer_plan(old: Seq<i8>, new: Seq<i8>) -> Result<
    Seq<TransferStep>,
    TransferError,
> {
    transfer_from(old, new, 0, 0)
}

/// The steps that carry data over the adaptation of one tree, given the
/// levels of its quadrants before and after.
pub fn plan_tree_transfer(old: &Vec<i8>, new: &Vec<i8>) -> (r: Result<
    Vec<TransferStep>,
    TransferError,
>)
    requires
        forall|i: int| 0 <= i < old@.len() ==> #[trigger] old@[i] < i8::MAX,
        forall|i: int| 0 <= i < new@.len() ==> #[trigger] new@[i] < i8::MAX,
    ensures
        match (r, transfer_plan(old@, new@)) {
            (Ok(steps), Ok(spec_steps)) => steps@ == spec_steps,
            (Err(e), Err(spec_e)) => e == spec_e,
            _ => false,
        },
{
    let ps = old.len();
    let ns = new.len();
    if ps == 0 || ns == 0 {
        return Err(TransferError::OutOfRange);
    }
    let mut steps: Vec<TransferStep> = Vec::new();
    let mut p: usize = 0;
    let mut n: usize = 0;
    assert(prepend_steps(steps@, transfer_from(old@, new@, 0, 0)) == transfer_plan(old@, new@)) by {
        match transfer_from(old@, new@, 0, 0) {
            Ok(rest) => {
                assert(steps@ + rest =~= rest);
            },
            Err(_) => {},
        }
    }
    loop
        invariant
            ps == old@.len(),
            ns == new@.len(),
            p < ps,
            n < ns,
            prepend_steps(steps@, transfer_from(old@, new@, p as int, n as int)) == transfer_plan(
                old@,
                new@,
            ),
            forall|i: int| 0 <= i < old@.len() ==> #[trigger] old@[i] < i8::MAX,
            forall|i: int| 0 <= i < new@.len() ==> #[trigger] new@[i] < i8::MAX,
        decreases ps - p + ns - n,
    {
        let lo = old[p];
        let ln = new[n];
        let step;
        let p2;
        let n2;
        if lo == ln {
            step = TransferStep::Copy { old: p, new: n };
            p2 = p + 1;
            n2 = n + 1;
        } else if lo + 1 == ln {
            if ns - n < CELL_CORNERS {
                return Err(TransferError::OutOfRange);
            }
            step = TransferStep::Refine { old: p, new: n };
            p2 = p + 1;
            n2 = n + CELL_CORNERS;
        } else if lo == ln + 1 {
            if ps - p < CELL_CORNERS {
                return Err(TransferError::OutOfRange);
            }
            step = TransferStep::Coarsen { old: p, new: n };
            p2 = p + CELL_CORNERS;
            n2 = n + 1;
        } else {
            return Err(TransferError::LevelMismatch { old_level: lo, new_level: ln });
        }
        let ghost before = steps@;
        steps.push(step);
        if p2 >= ps || n2 >= ns {
            return Ok(steps);
        }
        proof {
            match transfer_from(old@, new@, p2 as int, n2 as int) {
                Ok(rest) => {
                    assert(before + (seq![step] + rest) =~= steps@ + rest);
                },
                Err(_) => {},
            }
        }
        p = p2;
        n = n2;
    }
}

/// Law: between two identical meshes, the walk copies every quadrant to the
/// quadrant at the same place.
pub proof fn lemma_transfer_identical(levels: Seq<i8>)
    requires
        levels.len() >= 1,
    ensures
        transfer_plan(levels, levels) == Ok::<Seq<TransferStep>, TransferError>(
            Seq::new(levels.len(), |k: int| TransferStep::Copy { old: k as usize, new: k as usize }),
        ),
{
    lemma_transfer_identical_from(levels, 0);
    assert(Seq::new((levels.len() - 0) as nat, |k: int| TransferStep::Copy { old: (0 + k) as usize, new: (0 + k) as usize })
        =~= Seq::new(levels.len(), |k: int| TransferStep::Copy { old: k as usize, new: k as usize }));
}

proof fn lemma_transfer_identical_from(levels: Seq<i8>, p: int)
    requires
        0 <= p < levels.len(),
    ensures
        transfer_from(levels, levels, p, p) == Ok::<Seq<TransferStep>, TransferError>(
            Seq::new((levels.len() - p) as nat, |k: int| TransferStep::Copy { old: (p + k) as usize, new: (p + k) as usize }),
        ),
    decreases levels.len() - p,
{
    let step = TransferStep::Copy { old: p as usize, new: p as usize };
    let all = Seq::new((levels.len() - p) as nat, |k: int| TransferStep::Copy { old: (p + k) as usize, new: (p + k) as usize });
    if p + 1 >= levels.len() {
        assert(all =~= seq![step]);
    } else {
        lemma_transfer_identical_from(levels, p + 1);
        let rest = Seq::new((levels.len() - (p + 1)) as nat, |k: int| TransferStep::Copy { old: (p + 1 + k) as usize, new: (p + 1 + k) as usize });
        assert(seq![step] + rest =~= all);
    }
}


/// A step pairs quadrants whose levels fit it: equal for a copy, the new
/// ones one level finer for a refinement (all four of them inside the new
/// array), the old ones one level finer for a coarsening.
pub open spec fn step_fits(old: Seq<i8>, new: Seq<i8>, step: TransferStep) -> bool {
    match step {
        TransferStep::Copy { old: o, new: n } => o < old.len() && n < new.len() && old[o as int]
            == new[n as int],
        TransferStep::Refine { old: o, new: n } => o < old.len() && n + CELL_CORNERS <= new.len()
            && new[n as int] == old[o as int] + 1,
        TransferStep::Coarsen { old: o, new: n } => o + CELL_CORNERS <= old.len() && n < new.len()
            && old[o as int] == new[n as int] + 1,
    }
}

/// Law: every step of a successful transfer pairs quadrants whose levels
/// fit the step.
pub proof fn lemma_transfer_steps_fit(old: Seq<i8>, new: Seq<i8>)
    requires
        old.len() <= usize::MAX,
        new.len() <= usize::MAX,
        transfer_plan(old, new) is Ok,
    ensures
        forall|k: int|
            0 <= k < transfer_plan(old, new)->Ok_0.len() ==> step_fits(
                old,
                new,
                #[trigger] transfer_plan(old, new)->Ok_0[k],
            ),
{
    lemma_transfer_steps_fit_from(old, new, 0, 0);
}

proof fn lemma_transfer_steps_fit_from(old: Seq<i8>, new: Seq<i8>, p: int, n: int)
    requires
        old.len() <= usize::MAX,
        new.len() <= usize::MAX,
        transfer_from(old, new, p, n) is Ok,
    ensures
        forall|k: int|
            0 <= k < transfer_from(old, new, p, n)->Ok_0.len() ==> step_fits(
                old,
                new,
                #[trigger] transfer_from(old, new, p, n)->Ok_0[k],
            ),
    decreases old.len() - p + new.len() - n,
{
    let lo = old[p] as int;
    let ln = new[n] as int;
    let (step, p2, n2) = if lo == ln {
        (TransferStep::Copy { old: p as usize, new: n as usize }, p + 1, n + 1)
    } else if lo + 1 == ln {
        (TransferStep::Refine { old: p as usize, new: n as usize }, p + 1, n + CELL_CORNERS)
    } else {
        (TransferStep::Coarsen { old: p as usize, new: n as usize }, p + CELL_CORNERS, n + 1)
    };
    let r = transfer_from(old, new, p, n)->Ok_0;
    assert(0 <= p < old.len() && 0 <= n < new.len());
    if lo != ln && lo + 1 == ln {
        assert(n + CELL_CORNERS <= new.len());
    } else if lo != ln {
        assert(lo == ln + 1);
        assert(p + CELL_CORNERS <= old.len());
    }
    assert(step_fits(old, new, step));
    if p2 >= old.len() || n2 >= new.len() {
        assert(r == seq![step]);
    } else {
        lemma_transfer_steps_fit_from(old, new, p2, n2);
        let rest = transfer_from(old, new, p2, n2)->Ok_0;
        assert(r == seq![step] + rest);
        assert forall|k: int| 0 <= k < r.len() implies step_fits(old, new, #[trigger] r[k]) by {
            if k > 0 {
                assert(r[k] == rest[k - 1]);
            }
        }
    }
}


/// The levels after refining quadrant `r` of `old` once: it is replaced by
/// four quadrants one level finer.
pub open spec fn refined_levels(old: Seq<i8>, r: int) -> Seq<i8> {
    old.take(r) + Seq::new(CELL_CORNERS as nat, |c: int| (old[r] + 1) as i8) + old.skip(r + 1)
}

/// The levels before coarsening into quadrant `r` of `new`: in its place,
/// four quadrants one level finer.
pub open spec fn unrefined_levels(new: Seq<i8>, r: int) -> Seq<i8> {
    new.take(r) + Seq::new(CELL_CORNERS as nat, |c: int| (new[r] + 1) as i8) + new.skip(r + 1)
}

/// Each old quadrant in turn: copied to the same place before `r`, handed
/// to the four new quadrants at `r`, copied three places further on after.
pub open spec fn refine_steps(len: nat, r: int) -> Seq<TransferStep> {
    Seq::new(
        len,
        |k: int|
            if k < r {
                TransferStep::Copy { old: k as usize, new: k as usize }
            } else if k == r {
                TransferStep::Refine { old: r as usize, new: r as usize }
            } else {
                TransferStep::Copy { old: k as usize, new: (k + 3) as usize }
            },
    )
}

/// Each new quadrant in turn: copied from the same place before `r`, made
/// from the four old quadrants at `r`, copied from three places further on
/// after.
pub open spec fn coarsen_steps(len: nat, r: int) -> Seq<TransferStep> {
    Seq::new(
        len,
        |k: int|
            if k < r {
                TransferStep::Copy { old: k as usize, new: k as usize }
            } else if k == r {
                TransferStep::Coarsen { old: r as usize, new: r as usize }
            } else {
                TransferStep::Copy { old: (k + 3) as usize, new: k as usize }
            },
    )
}

proof fn lemma_refine_walk(old: Seq<i8>, r: int, p: int)
    requires
        0 <= r < old.len(),
        old[r] < i8::MAX,
        0 <= p < old.len(),
    ensures
        transfer_from(old, refined_levels(old, r), p, if p <= r { p } else { p + 3 }) == Ok::<
            Seq<TransferStep>,
            TransferError,
        >(refine_steps(old.len(), r).subrange(p, old.len() as int)),
    decreases old.len() - p,
{
    let new = refined_levels(old, r);
    let n = if p <= r {
        p
    } else {
        p + 3
    };
    assert(new.len() == old.len() + 3);
    let all = refine_steps(old.len(), r);
    let (p2, n2) = if p == r {
        (p + 1, n + 4)
    } else {
        (p + 1, n + 1)
    };
    if p < r {
        assert(new[n] == old[p]);
    } else if p == r {
        assert(new[n] == (old[r] + 1) as i8);
    } else {
        assert(new[n] == old.skip(r + 1)[p - r - 1]);
        assert(new[n] == old[p]);
    }
    let step = all[p];
    if p2 >= old.len() {
        assert(all.subrange(p, old.len() as int) =~= seq![step]);
    } else {
        lemma_refine_walk(old, r, p2);
        assert(n2 == if p2 <= r { p2 } else { p2 + 3 });
        assert(all.subrange(p, old.len() as int) =~= seq![step] + all.subrange(p2, old.len() as int));
    }
}

/// Law: refining one quadrant of a tree once gives a transfer that copies
/// every other quadrant to its place (shifted by three past the refined
/// one) and hands the refined quadrant to its four children; every old and
/// every new quadrant is covered exactly once.
pub proof fn lemma_transfer_refine_one(old: Seq<i8>, r: int)
    requires
        0 <= r < old.len(),
        old[r] < i8::MAX,
    ensures
        transfer_plan(old, refined_levels(old, r)) == Ok::<Seq<TransferStep>, TransferError>(
            refine_steps(old.len(), r),
        ),
{
    lemma_refine_walk(old, r, 0);
    assert(refine_steps(old.len(), r).subrange(0, old.len() as int) =~= refine_steps(old.len(), r));
}

proof fn lemma_coarsen_walk(new: Seq<i8>, r: int, n: int)
    requires
        0 <= r < new.len(),
        new[r] < i8::MAX,
        0 <= n < new.len(),
    ensures
        transfer_from(unrefined_levels(new, r), new, if n <= r { n } else { n + 3 }, n) == Ok::<
            Seq<TransferStep>,
            TransferError,
        >(coarsen_steps(new.len(), r).subrange(n, new.len() as int)),
    decreases new.len() - n,
{
    let old = unrefined_levels(new, r);
    let p = if n <= r {
        n
    } else {
        n + 3
    };
    assert(old.len() == new.len() + 3);
    let all = coarsen_steps(new.len(), r);
    let (p2, n2) = if n == r {
        (p + 4, n + 1)
    } else {
        (p + 1, n + 1)
    };
    if n < r {
        assert(old[p] == new[n]);
    } else if n == r {
        assert(old[p] == (new[r] + 1) as i8);
    } else {
        assert(old[p] == new.skip(r + 1)[n - r - 1]);
        assert(old[p] == new[n]);
    }
    let step = all[n];
    if n2 >= new.len() {
        assert(all.subrange(n, new.len() as int) =~= seq![step]);
    } else {
        lemma_coarsen_walk(new, r, n2);
        assert(p2 == if n2 <= r { n2 } else { n2 + 3 });
        assert(all.subrange(n, new.len() as int) =~= seq![step] + all.subrange(n2, new.len() as int));
    }
}

/// Law: coarsening four sibling quadrants of a tree into one gives a
/// transfer that copies every other quadrant to its place (shifted back by
/// three past the coarsened ones) and hands the four to their parent; every
/// old and every new quadrant is covered exactly once.
pub proof fn lemma_transfer_coarsen_one(new: Seq<i8>, r: int)
    requires
        0 <= r < new.len(),
        new[r] < i8::MAX,
    ensures
        transfer_plan(unrefined_levels(new, r), new) == Ok::<Seq<TransferStep>, TransferError>(
            coarsen_steps(new.len(), r),
        ),
{
    lemma_coarsen_walk(new, r, 0);
    assert(coarsen_steps(new.len(), r).subrange(0, new.len() as int) =~= coarsen_steps(new.len(), r));
}


/// Law: with no quadrants before or after, there is nothing to walk, and
/// two quadrants whose levels differ by more than one cannot be matched.
pub proof fn lemma_transfer_refuses(old: Seq<i8>, new: Seq<i8>)
    ensures
        (old.len() == 0 || new.len() == 0) ==> transfer_plan(old, new) == Err::<
            Seq<TransferStep>,
            TransferError,
        >(TransferError::OutOfRange),
        (old.len() > 0 && new.len() > 0 && (old[0] - new[0] > 1 || new[0] - old[0] > 1))
            ==> transfer_plan(old, new) == Err::<Seq<TransferStep>, TransferError>(
            TransferError::LevelMismatch { old_level: old[0], new_level: new[0] },
        ),
{
}

} // verus!
