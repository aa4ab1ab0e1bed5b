//! The undo stack: a bottom snapshot plus the snapshots pushed after it.
//! There is no redo; popping discards the most recent snapshot for good.

use vstd::prelude::*;
use super::ctx::Ctx;

verus! {

/// Edit history: the bottom snapshot and the ones pushed on top of it.
pub struct Stack {
    btm: Ctx,
    undos: Vec<Ctx>,
}

impl Stack {
    /// The pushed snapshots, oldest first (the bottom is not among them).
    pub closed spec fn spec_history(&self) -> Seq<Ctx> {
        self.undos@
    }

    /// The snapshot `top` returns: the last pushed, or the bottom.
    pub closed spec fn spec_top(&self) -> Ctx {
        if self.undos@.len() > 0 {
            self.undos@.last()
        } else {
            self.btm
        }
    }

    /// How many snapshots were pushed above the bottom.
    pub closed spec fn spec_depth(&self) -> nat {
        self.undos@.len()
    }

    /// The bottom snapshot.
    pub closed spec fn spec_bottom(&self) -> Ctx {
        self.btm
    }

    /// How the stack's observable pieces fit together: the depth counts the
    /// pushed snapshots and the top is the last of them, or the bottom.
    pub proof fn lemma_shape(&self)
        ensures
            self.spec_depth() == self.spec_history().len(),
            self.spec_top() == if self.spec_history().len() > 0 {
                self.spec_history().last()
            } else {
                self.spec_bottom()
            },
    {
    }

    /// A history holding only its bottom snapshot.
    pub fn new(btm: Ctx) -> (r: Stack)
        ensures
            r.spec_depth() == 0,
            r.spec_history() == Seq::<Ctx>::empty(),
            r.spec_bottom() == btm,
            r.spec_top() == btm,
    {
        let r = Stack { btm, undos: Vec::new() };
        proof {
            assert(r.spec_history() =~= Seq::<Ctx>::empty());
        }
        r
    }

    /// Records a new snapshot as the most recent.
    pub fn push(&mut self, new: Ctx)
        ensures
            final(self).spec_depth() == old(self).spec_depth() + 1,
            final(self).spec_history() == old(self).spec_history().push(new),
            final(self).spec_top() == new,
            final(self).spec_bottom() == old(self).spec_bottom(),
    {
        self.undos.push(new);
    }

    /// Discards exactly the most recent snapshot; the earlier history and
    /// the bottom stay as they were.
    pub fn pop(&mut self)
        ensures
            final(self).spec_bottom() == old(self).spec_bottom(),
            old(self).spec_depth() > 0 ==> final(self).spec_depth() == old(self).spec_depth() - 1
                && final(self).spec_history() == old(self).spec_history().drop_last(),
            old(self).spec_depth() == 0 ==> final(self).spec_depth() == 0 && final(self).spec_history() == old(self).spec_history() && final(self).spec_top() == old(self).spec_top(),
    {
        let _ = self.undos.pop();
    }

    /// The most recent snapshot, or the bottom if none was pushed.
    pub fn top(&self) -> (r: &Ctx)
        ensures
            *r == self.spec_top(),
    {
        let n = self.undos.len();
        if n > 0 {
            &self.undos[n - 1]
        } else {
            &self.btm
        }
    }

    /// Mutable access to the most recent snapshot (or the bottom).
    pub fn top_mut(&mut self) -> (r: &mut Ctx)
        ensures
            *r == old(self).spec_top(),
            final(self).spec_depth() == old(self).spec_depth(),
            final(self).spec_top() == *final(r),
            old(self).spec_depth() > 0 ==> final(self).spec_bottom() == old(self).spec_bottom()
                && final(self).spec_history() == old(self).spec_history().update(
                old(self).spec_depth() - 1,
                *final(r),
            ),
            old(self).spec_depth() == 0 ==> final(self).spec_history() == old(self).spec_history()
                && final(self).spec_bottom() == *final(r),
    {
        let n = self.undos.len();
        if n > 0 {
            &mut self.undos[n - 1]
        } else {
            &mut self.btm
        }
    }
}

} // verus!
