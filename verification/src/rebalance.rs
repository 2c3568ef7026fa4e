//! The decisions of a merge of many objects into few: which output each batch of rows goes
//! to, and what that means for the rows of each output.

use crate::base::Bytes;
use crate::store::RebalanceTarget;
use vstd::prelude::*;

verus! {

/// Whether an output that holds `rows` rows in a file of `on_disk` bytes has met `target`: a
/// row target by its rows, a size target once the file has nine tenths of the size.
pub open spec fn spec_is_met(target: RebalanceTarget, rows: nat, on_disk: nat) -> bool {
    match target {
        RebalanceTarget::Rows(quota) => rows >= quota,
        RebalanceTarget::Size(size) => 10 * on_disk >= 9 * size@,
    }
}

impl RebalanceTarget {
    pub fn is_met(&self, rows: usize, on_disk: Bytes) -> (r: bool)
        ensures
            r == spec_is_met(*self, rows as nat, on_disk@),
    {
        match self {
            RebalanceTarget::Rows(quota) => rows >= *quota,
            RebalanceTarget::Size(size) => {
                let have: u128 = on_disk.as_usize() as u128;
                let want: u128 = size.as_usize() as u128;
                10 * have >= 9 * want
            },
        }
    }
}

/// Where a merge stands: how many outputs there are, which one is being written, and how
/// many rows it holds.
pub struct CursorView {
    pub outputs: nat,
    pub index: nat,
    pub rows: nat,
}

/// Where a merge stands after one more batch of `batch` rows: the batch goes to the next
/// output if the current one is full and is not the last, else to the current one.
pub open spec fn advance(cursor: CursorView, full: bool, batch: nat) -> CursorView {
    if full && cursor.index + 1 < cursor.outputs {
        CursorView { outputs: cursor.outputs, index: cursor.index + 1, rows: batch }
    } else {
        CursorView { outputs: cursor.outputs, index: cursor.index, rows: cursor.rows + batch }
    }
}

/// The decisions of a merge: which output each batch is written to.
#[derive(Debug)]
pub struct OutputCursor {
    outputs: usize,
    index: usize,
    rows: usize,
}

impl View for OutputCursor {
    type V = CursorView;

    closed spec fn view(&self) -> CursorView {
        CursorView { outputs: self.outputs as nat, index: self.index as nat, rows: self.rows as nat }
    }
}

impl OutputCursor {
    #[verifier::type_invariant]
    spec fn in_range(self) -> bool {
        self.index < self.outputs
    }

    /// A merge into `outputs` outputs that has written nothing yet.
    pub fn new(outputs: usize) -> (r: OutputCursor)
        requires
            outputs > 0,
        ensures
            r@ == (CursorView { outputs: outputs as nat, index: 0, rows: 0 }),
    {
        OutputCursor { outputs, index: 0, rows: 0 }
    }

    /// The output that is being written.
    pub fn index(&self) -> (r: usize)
        ensures
            r == self@.index,
            r < self@.outputs,
    {
        proof {
            use_type_invariant(self);
        }
        self.index
    }

    /// The rows written to the current output.
    pub fn rows(&self) -> (r: usize)
        ensures
            r == self@.rows,
    {
        self.rows
    }

    /// Decides where the next batch goes, given whether the current output is full, and
    /// counts its rows there.
    pub fn place(&mut self, full: bool, batch_rows: usize) -> (index: usize)
        requires
            old(self)@.rows + batch_rows <= usize::MAX,
        ensures
            final(self)@ == advance(old(self)@, full, batch_rows as nat),
            index == final(self)@.index,
            index < final(self)@.outputs,
    {
        proof {
            use_type_invariant(&*self);
        }
        if full && self.index < self.outputs - 1 {
            *self = OutputCursor { outputs: self.outputs, index: self.index + 1, rows: batch_rows };
        } else {
            *self = OutputCursor {
                outputs: self.outputs,
                index: self.index,
                rows: self.rows + batch_rows,
            };
        }
        self.index
    }

    /// Decides where the next batch goes towards `target`, given the size of the current
    /// output's file, and counts its rows there.
    pub fn place_for(&mut self, target: &RebalanceTarget, on_disk: Bytes, batch_rows: usize) -> (index:
        usize)
        requires
            old(self)@.rows + batch_rows <= usize::MAX,
        ensures
            final(self)@ == advance(
                old(self)@,
                spec_is_met(*target, old(self)@.rows, on_disk@),
                batch_rows as nat,
            ),
            index == final(self)@.index,
            index < final(self)@.outputs,
    {
        let full = target.is_met(self.rows, on_disk);
        self.place(full, batch_rows)
    }
}

/// The sum of the numbers of `rows`.
pub open spec fn total_rows(rows: Seq<nat>) -> nat
    decreases rows.len(),
{
    if rows.len() == 0 {
        0
    } else {
        total_rows(rows.drop_last()) + rows.last()
    }
}

/// Where a merge by rows stands after the batches `batches`, each output being closed once it
/// holds `target` rows.
pub open spec fn cursor_after(batches: Seq<nat>, outputs: nat, target: nat) -> CursorView
    decreases batches.len(),
{
    if batches.len() == 0 {
        CursorView { outputs, index: 0, rows: 0 }
    } else {
        let before = cursor_after(batches.drop_last(), outputs, target);
        advance(before, before.rows >= target, batches.last())
    }
}

/// The rows that each output holds after the batches `batches`.
pub open spec fn rows_after(batches: Seq<nat>, outputs: nat, target: nat) -> Seq<nat>
    decreases batches.len(),
{
    if batches.len() == 0 {
        Seq::new(outputs, |i: int| 0nat)
    } else {
        let before = rows_after(batches.drop_last(), outputs, target);
        let at = cursor_after(batches, outputs, target).index as int;
        before.update(at, before[at] + batches.last())
    }
}

proof fn lemma_total_rows_zero(outputs: nat)
    ensures
        total_rows(Seq::new(outputs, |i: int| 0nat)) == 0,
    decreases outputs,
{
    if outputs > 0 {
        lemma_total_rows_zero((outputs - 1) as nat);
        assert(Seq::new(outputs, |i: int| 0nat).drop_last() =~= Seq::new(
            (outputs - 1) as nat,
            |i: int| 0nat,
        ));
    }
}

proof fn lemma_total_rows_update(rows: Seq<nat>, at: int, more: nat)
    requires
        0 <= at < rows.len(),
    ensures
        total_rows(rows.update(at, rows[at] + more)) == total_rows(rows) + more,
    decreases rows.len(),
{
    let updated = rows.update(at, rows[at] + more);
    if at == rows.len() - 1 {
        assert(updated.drop_last() =~= rows.drop_last());
    } else {
        lemma_total_rows_update(rows.drop_last(), at, more);
        assert(updated.drop_last() =~= rows.drop_last().update(at, rows[at] + more));
    }
}

/// What holds of a merge by rows at every moment: the current output is one of the outputs
/// and holds the rows counted for it, every output before it has met the target, every
/// output after it is empty, and no row is lost or made.
pub proof fn lemma_merge_invariant(batches: Seq<nat>, outputs: nat, target: nat)
    requires
        outputs > 0,
    ensures
        rows_after(batches, outputs, target).len() == outputs,
        cursor_after(batches, outputs, target).outputs == outputs,
        cursor_after(batches, outputs, target).index < outputs,
        rows_after(batches, outputs, target)[cursor_after(batches, outputs, target).index as int]
            == cursor_after(batches, outputs, target).rows,
        forall|i: int|
            0 <= i < cursor_after(batches, outputs, target).index ==> rows_after(
                batches,
                outputs,
                target,
            )[i] >= target,
        forall|i: int|
            cursor_after(batches, outputs, target).index < i < outputs ==> rows_after(
                batches,
                outputs,
                target,
            )[i] == 0,
        total_rows(rows_after(batches, outputs, target)) == total_rows(batches),
    decreases batches.len(),
{
    if batches.len() == 0 {
        lemma_total_rows_zero(outputs);
    } else {
        lemma_merge_invariant(batches.drop_last(), outputs, target);
        let before = rows_after(batches.drop_last(), outputs, target);
        let at = cursor_after(batches, outputs, target).index as int;
        lemma_total_rows_update(before, at, batches.last());
    }
}

/// A merge by rows keeps the rows: the outputs together hold what the batches held.
pub proof fn lemma_merge_keeps_rows(batches: Seq<nat>, outputs: nat, target: nat)
    requires
        outputs > 0,
    ensures
        rows_after(batches, outputs, target).len() == outputs,
        total_rows(rows_after(batches, outputs, target)) == total_rows(batches),
{
    lemma_merge_invariant(batches, outputs, target);
}

/// Every output but the last holds at least `target` rows exactly when the merge has
/// reached the last output, or has filled the one before it, or the target is zero. A merge
/// whose batches run out earlier leaves the outputs after the current one empty.
pub proof fn lemma_merge_meets_target(batches: Seq<nat>, outputs: nat, target: nat)
    requires
        outputs > 0,
    ensures
        (forall|i: int| 0 <= i < outputs - 1 ==> rows_after(batches, outputs, target)[i] >= target)
            <==> ({
            let at = cursor_after(batches, outputs, target);
            ||| target == 0
            ||| at.index == outputs - 1
            ||| (at.index == outputs - 2 && at.rows >= target)
        }),
{
    lemma_merge_invariant(batches, outputs, target);
    let at = cursor_after(batches, outputs, target);
    let rows = rows_after(batches, outputs, target);
    if target != 0 && at.index != outputs - 1 && !(at.index == outputs - 2 && at.rows >= target) {
        if at.index == outputs - 2 {
            assert(rows[at.index as int] < target);
        } else {
            assert(rows[at.index as int + 1] == 0);
        }
    }
}

} // verus!
