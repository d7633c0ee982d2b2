//! Linear undo/redo history over the tempo map.
//!
//! Two stacks of applied commands: `done` holds what can be undone, `undone`
//! what can be redone. Recording a fresh command clears the redo stack, so
//! the history is always a single line of edits. The well-formedness
//! predicate `valid_for` ties the stacks to the tempo map they were built
//! against: every command on `done` can be undone in order, and every
//! command on `undone` can be reapplied in order.

use vstd::prelude::*;

use crate::command::{
    cmd_after_undo, cmd_apply_cmd, cmd_apply_state, cmd_can_apply, cmd_can_undo, cmd_undo_state,
    lemma_apply_undo, lemma_undo_apply, Command,
};
use crate::timing::{list_valid, BpmList, BpmPoint};

verus! {

/// The commands of `cs`, popped from the end, can be undone one after the
/// other starting from tempo map `s`.
pub open spec fn undo_chain_ok(cs: Seq<Command>, s: Seq<BpmPoint>) -> bool
    decreases cs.len(),
{
    cs.len() == 0 || (cmd_can_undo(cs.last(), s) && undo_chain_ok(
        cs.drop_last(),
        cmd_undo_state(cs.last(), s),
    ))
}

/// The commands of `cs`, popped from the end, can be applied one after the
/// other starting from tempo map `s`.
pub open spec fn redo_chain_ok(cs: Seq<Command>, s: Seq<BpmPoint>) -> bool
    decreases cs.len(),
{
    cs.len() == 0 || (cmd_can_apply(cs.last(), s) && redo_chain_ok(
        cs.drop_last(),
        cmd_apply_state(cs.last(), s),
    ))
}

/// The tempo map after undoing all of `cs`, popped from the end, from `s`.
pub open spec fn undo_all_state(cs: Seq<Command>, s: Seq<BpmPoint>) -> Seq<BpmPoint>
    decreases cs.len(),
{
    if cs.len() == 0 {
        s
    } else {
        undo_all_state(cs.drop_last(), cmd_undo_state(cs.last(), s))
    }
}

/// The redo stack left by undoing all of `cs`, popped from the end, from
/// `s`: each popped command, after its capture is cleared, is pushed in
/// turn.
pub open spec fn undo_all_stack(cs: Seq<Command>, s: Seq<BpmPoint>) -> Seq<Command>
    decreases cs.len(),
{
    if cs.len() == 0 {
        Seq::<Command>::empty()
    } else {
        seq![cmd_after_undo(cs.last())] + undo_all_stack(
            cs.drop_last(),
            cmd_undo_state(cs.last(), s),
        )
    }
}

/// The tempo map after applying all of `cs`, popped from the end, from `s`.
pub open spec fn redo_all_state(cs: Seq<Command>, s: Seq<BpmPoint>) -> Seq<BpmPoint>
    decreases cs.len(),
{
    if cs.len() == 0 {
        s
    } else {
        redo_all_state(cs.drop_last(), cmd_apply_state(cs.last(), s))
    }
}

/// The commands of `cs`, taken from the front, can be applied one after the
/// other starting from tempo map `s` (the order in which a batch of fresh
/// edits is recorded).
pub open spec fn can_apply_all(cs: Seq<Command>, s: Seq<BpmPoint>) -> bool
    decreases cs.len(),
{
    cs.len() == 0 || (cmd_can_apply(cs.first(), s) && can_apply_all(
        cs.drop_first(),
        cmd_apply_state(cs.first(), s),
    ))
}

/// The tempo map after applying all of `cs`, taken from the front, to `s`.
pub open spec fn apply_all_state(cs: Seq<Command>, s: Seq<BpmPoint>) -> Seq<BpmPoint>
    decreases cs.len(),
{
    if cs.len() == 0 {
        s
    } else {
        apply_all_state(cs.drop_first(), cmd_apply_state(cs.first(), s))
    }
}

/// The undo stack built by recording all of `cs`, taken from the front, on
/// `s`: each applied command, with its capture filled in, is pushed in turn.
pub open spec fn apply_all_stack(cs: Seq<Command>, s: Seq<BpmPoint>) -> Seq<Command>
    decreases cs.len(),
{
    if cs.len() == 0 {
        Seq::<Command>::empty()
    } else {
        seq![cmd_apply_cmd(cs.first(), s)] + apply_all_stack(
            cs.drop_first(),
            cmd_apply_state(cs.first(), s),
        )
    }
}

/// The linear edit history: a stack of undoable commands and a stack of
/// redoable ones.
pub struct EditHistory {
    done: Vec<Command>,
    undone: Vec<Command>,
}

impl EditHistory {
    /// The undo stack, oldest first.
    pub closed spec fn done_seq(self) -> Seq<Command> {
        self.done@
    }

    /// The redo stack, oldest first.
    pub closed spec fn undone_seq(self) -> Seq<Command> {
        self.undone@
    }

    /// The history matches tempo map `s`: both stacks replay against it.
    pub open spec fn valid_for(self, s: Seq<BpmPoint>) -> bool {
        undo_chain_ok(self.done_seq(), s) && redo_chain_ok(self.undone_seq(), s)
    }

    /// An empty history: nothing to undo, nothing to redo. It is valid for
    /// any tempo map.
    pub fn new() -> (h: EditHistory)
        ensures
            h.done_seq().len() == 0,
            h.undone_seq().len() == 0,
    {
        EditHistory { done: Vec::new(), undone: Vec::new() }
    }

    /// There is a command to undo.
    pub fn has_undo(&self) -> (r: bool)
        ensures
            r == (self.done_seq().len() > 0),
    {
        self.done.len() > 0
    }

    /// There is a command to redo.
    pub fn has_redo(&self) -> (r: bool)
        ensures
            r == (self.undone_seq().len() > 0),
    {
        self.undone.len() > 0
    }

    /// Apply a fresh command to the tempo map and push it on the undo stack.
    /// The redo stack is cleared: after a fresh edit there is nothing to
    /// redo.
    pub fn record(&mut self, command: Command, target: &mut BpmList)
        requires
            old(target).wf(),
            old(self).valid_for(old(target)@),
            cmd_can_apply(command, old(target)@),
        ensures
            final(target).wf(),
            final(target)@ == cmd_apply_state(command, old(target)@),
            final(self).done_seq() == old(self).done_seq().push(
                cmd_apply_cmd(command, old(target)@),
            ),
            final(self).undone_seq().len() == 0,
            final(self).valid_for(final(target)@),
    {
        let mut c = command;
        c.apply(target);
        self.done.push(c);
        self.undone.clear();
        proof {
            lemma_apply_undo(command, old(target)@);
            assert(self.done@.drop_last() =~= old(self).done@);
        }
    }

    /// Undo the most recent command, if any; it moves to the redo stack.
    /// With an empty undo stack this is a no-op that reports `false`.
    pub fn undo(&mut self, target: &mut BpmList) -> (did: bool)
        requires
            old(target).wf(),
            old(self).valid_for(old(target)@),
        ensures
            final(target).wf(),
            did == (old(self).done_seq().len() > 0),
            old(self).done_seq().len() == 0 ==> final(self).done_seq() == old(self).done_seq()
                && final(self).undone_seq() == old(self).undone_seq() && *final(target) == *old(
                target,
            ),
            old(self).done_seq().len() > 0 ==> {
                &&& final(target)@ == cmd_undo_state(old(self).done_seq().last(), old(target)@)
                &&& final(self).done_seq() == old(self).done_seq().drop_last()
                &&& final(self).undone_seq() == old(self).undone_seq().push(
                    cmd_after_undo(old(self).done_seq().last()),
                )
            },
            final(self).valid_for(final(target)@),
    {
        let popped = self.done.pop();
        match popped {
            None => false,
            Some(mut c) => {
                c.undo(target);
                self.undone.push(c);
                proof {
                    lemma_undo_apply(old(self).done_seq().last(), old(target)@);
                    assert(self.undone@.drop_last() =~= old(self).undone@);
                }
                true
            },
        }
    }

    /// Redo the most recently undone command, if any; it moves back to the
    /// undo stack. With an empty redo stack this is a no-op that reports
    /// `false`.
    pub fn redo(&mut self, target: &mut BpmList) -> (did: bool)
        requires
            old(target).wf(),
            old(self).valid_for(old(target)@),
        ensures
            final(target).wf(),
            did == (old(self).undone_seq().len() > 0),
            old(self).undone_seq().len() == 0 ==> final(self).done_seq() == old(self).done_seq()
                && final(self).undone_seq() == old(self).undone_seq() && *final(target) == *old(
                target,
            ),
            old(self).undone_seq().len() > 0 ==> {
                &&& final(target)@ == cmd_apply_state(old(self).undone_seq().last(), old(target)@)
                &&& final(self).undone_seq() == old(self).undone_seq().drop_last()
                &&& final(self).done_seq() == old(self).done_seq().push(
                    cmd_apply_cmd(old(self).undone_seq().last(), old(target)@),
                )
            },
            final(self).valid_for(final(target)@),
    {
        let popped = self.undone.pop();
        match popped {
            None => false,
            Some(mut c) => {
                c.apply(target);
                self.done.push(c);
                proof {
                    lemma_apply_undo(old(self).undone_seq().last(), old(target)@);
                    assert(self.done@.drop_last() =~= old(self).done@);
                }
                true
            },
        }
    }
}

/// Concatenation splits an undo chain: to undo `a + b` from `s`, first undo
/// all of `b`, then all of `a` from the state that leaves.
proof fn lemma_undo_chain_concat(a: Seq<Command>, b: Seq<Command>, s: Seq<BpmPoint>)
    requires
        undo_chain_ok(b, s),
        undo_chain_ok(a, undo_all_state(b, s)),
    ensures
        undo_chain_ok(a + b, s),
        undo_all_state(a + b, s) == undo_all_state(a, undo_all_state(b, s)),
    decreases b.len(),
{
    if b.len() == 0 {
        assert(a + b =~= a);
    } else {
        let c = b.last();
        let s1 = cmd_undo_state(c, s);
        assert((a + b).last() == c);
        assert((a + b).drop_last() =~= a + b.drop_last());
        lemma_undo_chain_concat(a, b.drop_last(), s1);
    }
}

/// Concatenation splits a redo chain in the same way.
proof fn lemma_redo_chain_concat(a: Seq<Command>, b: Seq<Command>, s: Seq<BpmPoint>)
    requires
        redo_chain_ok(b, s),
        redo_chain_ok(a, redo_all_state(b, s)),
    ensures
        redo_chain_ok(a + b, s),
        redo_all_state(a + b, s) == redo_all_state(a, redo_all_state(b, s)),
    decreases b.len(),
{
    if b.len() == 0 {
        assert(a + b =~= a);
    } else {
        let c = b.last();
        let s1 = cmd_apply_state(c, s);
        assert((a + b).last() == c);
        assert((a + b).drop_last() =~= a + b.drop_last());
        lemma_redo_chain_concat(a, b.drop_last(), s1);
    }
}

/// Full undo restores the original state: recording any applicable batch of
/// commands on a valid tempo map builds an undo stack that, undone command
/// by command, leads back to exactly the tempo map the first command was
/// applied to.
pub proof fn lemma_apply_all_then_undo_all(cs: Seq<Command>, s: Seq<BpmPoint>)
    requires
        list_valid(s),
        can_apply_all(cs, s),
    ensures
        undo_chain_ok(apply_all_stack(cs, s), apply_all_state(cs, s)),
        undo_all_state(apply_all_stack(cs, s), apply_all_state(cs, s)) == s,
    decreases cs.len(),
{
    if cs.len() > 0 {
        let c = cs.first();
        let c1 = cmd_apply_cmd(c, s);
        let s1 = cmd_apply_state(c, s);
        lemma_apply_undo(c, s);
        lemma_apply_all_then_undo_all(cs.drop_first(), s1);
        let stack1 = apply_all_stack(cs.drop_first(), s1);
        let sf = apply_all_state(cs.drop_first(), s1);
        let single = seq![c1];
        assert(single.len() == 1);
        assert(single.last() == c1);
        assert(single.drop_last() =~= Seq::<Command>::empty());
        assert(undo_all_state(single, s1) == undo_all_state(
            single.drop_last(),
            cmd_undo_state(c1, s1),
        ));
        assert(undo_all_state(stack1, sf) == s1);
        assert(undo_chain_ok(single.drop_last(), cmd_undo_state(c1, s1)));
        assert(undo_chain_ok(single, s1));
        assert(undo_all_state(single, s1) == cmd_undo_state(c1, s1));
        lemma_undo_chain_concat(single, stack1, sf);
        assert(apply_all_stack(cs, s) == single + stack1);
        assert(apply_all_state(cs, s) == sf);
    }
}

/// Full redo restores the edited state: undoing a whole undo stack from a
/// valid tempo map leaves a redo stack that, reapplied command by command,
/// leads back to exactly the tempo map the first undo started from.
pub proof fn lemma_undo_all_then_redo_all(done: Seq<Command>, s: Seq<BpmPoint>)
    requires
        list_valid(s),
        undo_chain_ok(done, s),
    ensures
        redo_chain_ok(undo_all_stack(done, s), undo_all_state(done, s)),
        redo_all_state(undo_all_stack(done, s), undo_all_state(done, s)) == s,
    decreases done.len(),
{
    if done.len() > 0 {
        let c = done.last();
        let c1 = cmd_after_undo(c);
        let s1 = cmd_undo_state(c, s);
        lemma_undo_apply(c, s);
        lemma_undo_all_then_redo_all(done.drop_last(), s1);
        let stack1 = undo_all_stack(done.drop_last(), s1);
        let sf = undo_all_state(done.drop_last(), s1);
        let single = seq![c1];
        assert(single.len() == 1);
        assert(single.last() == c1);
        assert(single.drop_last() =~= Seq::<Command>::empty());
        assert(redo_all_state(single, s1) == redo_all_state(
            single.drop_last(),
            cmd_apply_state(c1, s1),
        ));
        assert(redo_all_state(stack1, sf) == s1);
        assert(redo_chain_ok(single.drop_last(), cmd_apply_state(c1, s1)));
        assert(redo_chain_ok(single, s1));
        assert(redo_all_state(single, s1) == cmd_apply_state(c1, s1));
        lemma_redo_chain_concat(single, stack1, sf);
        assert(undo_all_stack(done, s) == single + stack1);
        assert(undo_all_state(done, s) == sf);
    }
}

} // verus!
