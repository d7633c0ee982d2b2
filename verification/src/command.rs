//! Atomic, reversible edits of the tempo map.
//!
//! Each command is a forward mutation with an exact inverse: applying it and
//! then undoing it restores the tempo map value for value. A removal captures
//! the removed breakpoint at apply time and clears the capture again when it
//! is undone. The closed `Command` sum type lets the edit history sequence
//! the variants without dynamic dispatch.

use vstd::prelude::*;

use crate::rational::rat_lt;
use crate::timing::{
    cache_fits, lemma_valid_drop_last, lemma_valid_insert, lemma_valid_push, lemma_valid_remove,
    lemma_valid_update, list_valid, BpmList, BpmPoint,
};

verus! {

/// Append a new breakpoint after all existing ones; undone by removing it
/// again.
#[derive(Clone, Copy, Debug, PartialEq, Eq, Structural)]
pub struct CreateBpmPoint(pub BpmPoint);

impl CreateBpmPoint {
    /// Build a command that will append `point`.
    pub fn new(point: BpmPoint) -> (c: CreateBpmPoint)
        ensures
            c == CreateBpmPoint(point),
    {
        CreateBpmPoint(point)
    }

    /// Append the breakpoint.
    pub fn edit(&mut self, target: &mut BpmList)
        requires
            old(target).wf(),
            old(self).0.wf(),
            old(target)@.len() == 0 || rat_lt(
                old(target)@.last().start_beat@,
                old(self).0.start_beat@,
            ),
            cache_fits(old(target)@.push(old(self).0)),
        ensures
            *final(self) == *old(self),
            final(target)@ == old(target)@.push(old(self).0),
            final(target).wf(),
    {
        target.push_point(self.0);
    }

    /// Remove the breakpoint appended by `edit`.
    pub fn undo(&mut self, target: &mut BpmList)
        requires
            old(target).wf(),
            old(target)@.len() > 0,
            old(target)@.last() == old(self).0,
        ensures
            *final(self) == *old(self),
            final(target)@ == old(target)@.drop_last(),
            final(target).wf(),
    {
        let _ = target.pop_point();
    }
}

/// Remove the breakpoint at a given index; the removed value is captured at
/// apply time so that undo can put it back.
#[derive(Clone, Copy, Debug, PartialEq, Eq, Structural)]
pub struct RemoveBpmPoint {
    pub index: usize,
    pub point: Option<BpmPoint>,
}

impl RemoveBpmPoint {
    /// Build a command that will remove the breakpoint at `index`.
    pub fn new(index: usize) -> (c: RemoveBpmPoint)
        ensures
            c == (RemoveBpmPoint { index, point: None }),
    {
        RemoveBpmPoint { index, point: None }
    }

    /// Remove the breakpoint at the index, capturing its value.
    pub fn edit(&mut self, target: &mut BpmList)
        requires
            old(target).wf(),
            old(self).index < old(target)@.len(),
            cache_fits(old(target)@.remove(old(self).index as int)),
        ensures
            final(self).index == old(self).index,
            final(self).point == Some(old(target)@[old(self).index as int]),
            final(target)@ == old(target)@.remove(old(self).index as int),
            final(target).wf(),
    {
        let removed = target.remove_at(self.index);
        self.point = Some(removed);
    }

    /// Re-insert the captured breakpoint at the index and clear the capture.
    pub fn undo(&mut self, target: &mut BpmList)
        requires
            old(target).wf(),
            old(self).point matches Some(p) && {
                &&& p.wf()
                &&& old(self).index <= old(target)@.len()
                &&& old(self).index == 0 || rat_lt(
                    old(target)@[old(self).index - 1].start_beat@,
                    p.start_beat@,
                )
                &&& old(self).index == old(target)@.len() || rat_lt(
                    p.start_beat@,
                    old(target)@[old(self).index as int].start_beat@,
                )
                &&& cache_fits(old(target)@.insert(old(self).index as int, p))
            },
        ensures
            final(self).index == old(self).index,
            final(self).point == None::<BpmPoint>,
            final(target)@ == old(target)@.insert(
                old(self).index as int,
                old(self).point.unwrap(),
            ),
            final(target).wf(),
    {
        let p = self.point.take().unwrap();
        target.insert_at(self.index, p);
    }
}

/// Overwrite the breakpoint at a given index with a new value; undone by
/// restoring the old value.
#[derive(Clone, Copy, Debug, PartialEq, Eq, Structural)]
pub struct EditBpmPoint {
    pub index: usize,
    pub from: BpmPoint,
    pub to: BpmPoint,
}

impl EditBpmPoint {
    /// Build a command that will overwrite the breakpoint at `index`,
    /// currently `from`, with `to`.
    pub fn new(index: usize, from: BpmPoint, to: BpmPoint) -> (c: EditBpmPoint)
        ensures
            c == (EditBpmPoint { index, from, to }),
    {
        EditBpmPoint { index, from, to }
    }

    /// Overwrite the breakpoint with the new value.
    pub fn edit(&mut self, target: &mut BpmList)
        requires
            old(target).wf(),
            old(self).index < old(target)@.len(),
            old(target)@[old(self).index as int] == old(self).from,
            old(self).to.wf(),
            old(self).index == 0 || rat_lt(
                old(target)@[old(self).index - 1].start_beat@,
                old(self).to.start_beat@,
            ),
            old(self).index == old(target)@.len() - 1 || rat_lt(
                old(self).to.start_beat@,
                old(target)@[old(self).index + 1].start_beat@,
            ),
            cache_fits(old(target)@.update(old(self).index as int, old(self).to)),
        ensures
            *final(self) == *old(self),
            final(target)@ == old(target)@.update(old(self).index as int, old(self).to),
            final(target).wf(),
    {
        target.set_at(self.index, self.to);
    }

    /// Restore the breakpoint's previous value.
    pub fn undo(&mut self, target: &mut BpmList)
        requires
            old(target).wf(),
            old(self).index < old(target)@.len(),
            old(target)@[old(self).index as int] == old(self).to,
            old(self).from.wf(),
            old(self).index == 0 || rat_lt(
                old(target)@[old(self).index - 1].start_beat@,
                old(self).from.start_beat@,
            ),
            old(self).index == old(target)@.len() - 1 || rat_lt(
                old(self).from.start_beat@,
                old(target)@[old(self).index + 1].start_beat@,
            ),
            cache_fits(old(target)@.update(old(self).index as int, old(self).from)),
        ensures
            *final(self) == *old(self),
            final(target)@ == old(target)@.update(old(self).index as int, old(self).from),
            final(target).wf(),
    {
        target.set_at(self.index, self.from);
    }
}

/// The closed sum of all edit variants, as the history sequences them.
#[derive(Clone, Copy, Debug, PartialEq, Eq, Structural)]
pub enum Command {
    Create(CreateBpmPoint),
    Remove(RemoveBpmPoint),
    Edit(EditBpmPoint),
}

/// The command's forward mutation is applicable to tempo map `s`.
pub open spec fn cmd_can_apply(c: Command, s: Seq<BpmPoint>) -> bool {
    match c {
        Command::Create(cc) => cc.0.wf() && (s.len() == 0 || rat_lt(
            s.last().start_beat@,
            cc.0.start_beat@,
        )) && cache_fits(s.push(cc.0)),
        Command::Remove(rc) => rc.index < s.len() && cache_fits(s.remove(rc.index as int)),
        Command::Edit(ec) => {
            &&& ec.index < s.len()
            &&& s[ec.index as int] == ec.from
            &&& ec.to.wf()
            &&& ec.index == 0 || rat_lt(s[ec.index - 1].start_beat@, ec.to.start_beat@)
            &&& ec.index == s.len() - 1 || rat_lt(ec.to.start_beat@, s[ec.index + 1].start_beat@)
            &&& cache_fits(s.update(ec.index as int, ec.to))
        },
    }
}

/// The tempo map after applying `c` to `s`.
pub open spec fn cmd_apply_state(c: Command, s: Seq<BpmPoint>) -> Seq<BpmPoint> {
    match c {
        Command::Create(cc) => s.push(cc.0),
        Command::Remove(rc) => s.remove(rc.index as int),
        Command::Edit(ec) => s.update(ec.index as int, ec.to),
    }
}

/// The command value after applying `c` to `s` (a removal captures the
/// removed breakpoint; the other variants are unchanged).
pub open spec fn cmd_apply_cmd(c: Command, s: Seq<BpmPoint>) -> Command {
    match c {
        Command::Remove(rc) => Command::Remove(
            RemoveBpmPoint { index: rc.index, point: Some(s[rc.index as int]) },
        ),
        _ => c,
    }
}

/// The command's inverse mutation is applicable to tempo map `s`.
pub open spec fn cmd_can_undo(c: Command, s: Seq<BpmPoint>) -> bool {
    match c {
        Command::Create(cc) => s.len() > 0 && s.last() == cc.0,
        Command::Remove(rc) => rc.point matches Some(p) && {
            &&& p.wf()
            &&& rc.index <= s.len()
            &&& rc.index == 0 || rat_lt(s[rc.index - 1].start_beat@, p.start_beat@)
            &&& rc.index == s.len() || rat_lt(p.start_beat@, s[rc.index as int].start_beat@)
            &&& cache_fits(s.insert(rc.index as int, p))
        },
        Command::Edit(ec) => {
            &&& ec.index < s.len()
            &&& s[ec.index as int] == ec.to
            &&& ec.from.wf()
            &&& ec.index == 0 || rat_lt(s[ec.index - 1].start_beat@, ec.from.start_beat@)
            &&& ec.index == s.len() - 1 || rat_lt(
                ec.from.start_beat@,
                s[ec.index + 1].start_beat@,
            )
            &&& cache_fits(s.update(ec.index as int, ec.from))
        },
    }
}

/// The tempo map after undoing `c` on `s`.
pub open spec fn cmd_undo_state(c: Command, s: Seq<BpmPoint>) -> Seq<BpmPoint> {
    match c {
        Command::Create(cc) => s.drop_last(),
        Command::Remove(rc) => s.insert(rc.index as int, rc.point.unwrap()),
        Command::Edit(ec) => s.update(ec.index as int, ec.from),
    }
}

/// The command value after undoing `c` (a removal clears its capture; the
/// other variants are unchanged).
pub open spec fn cmd_after_undo(c: Command) -> Command {
    match c {
        Command::Remove(rc) => Command::Remove(RemoveBpmPoint { index: rc.index, point: None }),
        _ => c,
    }
}

impl Command {
    /// Apply the command's forward mutation to the tempo map.
    pub fn apply(&mut self, target: &mut BpmList)
        requires
            old(target).wf(),
            cmd_can_apply(*old(self), old(target)@),
        ensures
            *final(self) == cmd_apply_cmd(*old(self), old(target)@),
            final(target)@ == cmd_apply_state(*old(self), old(target)@),
            final(target).wf(),
    {
        match self {
            Command::Create(cc) => cc.edit(target),
            Command::Remove(rc) => rc.edit(target),
            Command::Edit(ec) => ec.edit(target),
        }
    }

    /// Undo the command's mutation on the tempo map.
    pub fn undo(&mut self, target: &mut BpmList)
        requires
            old(target).wf(),
            cmd_can_undo(*old(self), old(target)@),
        ensures
            *final(self) == cmd_after_undo(*old(self)),
            final(target)@ == cmd_undo_state(*old(self), old(target)@),
            final(target).wf(),
    {
        match self {
            Command::Create(cc) => cc.undo(target),
            Command::Remove(rc) => rc.undo(target),
            Command::Edit(ec) => ec.undo(target),
        }
    }
}

/// Symmetry law, apply direction: on a valid tempo map, applying a command
/// and then undoing the command value it produced restores the map exactly,
/// and turns the command into the same value an undo always leaves behind.
pub proof fn lemma_apply_undo(c: Command, s: Seq<BpmPoint>)
    requires
        list_valid(s),
        cmd_can_apply(c, s),
    ensures
        list_valid(cmd_apply_state(c, s)),
        cmd_can_undo(cmd_apply_cmd(c, s), cmd_apply_state(c, s)),
        cmd_undo_state(cmd_apply_cmd(c, s), cmd_apply_state(c, s)) == s,
        cmd_after_undo(cmd_apply_cmd(c, s)) == cmd_after_undo(c),
{
    match c {
        Command::Create(cc) => {
            lemma_valid_push(s, cc.0);
            assert(s.push(cc.0).drop_last() =~= s);
        },
        Command::Remove(rc) => {
            let i = rc.index as int;
            lemma_valid_remove(s, i);
            let s1 = s.remove(i);
            assert(s1.insert(i, s[i]) =~= s);
        },
        Command::Edit(ec) => {
            let i = ec.index as int;
            lemma_valid_update(s, i, ec.to);
            let s1 = s.update(i, ec.to);
            assert(s1.update(i, ec.from) =~= s);
        },
    }
}

/// Symmetry law, undo direction: on a valid tempo map, undoing a command and
/// then applying what it left behind restores the map exactly and recaptures
/// the same command value.
pub proof fn lemma_undo_apply(c: Command, s: Seq<BpmPoint>)
    requires
        list_valid(s),
        cmd_can_undo(c, s),
    ensures
        list_valid(cmd_undo_state(c, s)),
        cmd_can_apply(cmd_after_undo(c), cmd_undo_state(c, s)),
        cmd_apply_state(cmd_after_undo(c), cmd_undo_state(c, s)) == s,
        cmd_apply_cmd(cmd_after_undo(c), cmd_undo_state(c, s)) == c,
{
    match c {
        Command::Create(cc) => {
            lemma_valid_drop_last(s);
            let s1 = s.drop_last();
            assert(s1.push(cc.0) =~= s);
        },
        Command::Remove(rc) => {
            let i = rc.index as int;
            let p = rc.point.unwrap();
            lemma_valid_insert(s, i, p);
            let s1 = s.insert(i, p);
            assert(s1.remove(i) =~= s);
            assert(s1[i] == p);
        },
        Command::Edit(ec) => {
            let i = ec.index as int;
            lemma_valid_update(s, i, ec.from);
            let s1 = s.update(i, ec.from);
            assert(s1.update(i, ec.to) =~= s);
        },
    }
}

} // verus!
