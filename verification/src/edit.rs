//! The editing layer: snapshots, the undo stack, the editor shell, and the
//! edit operations, each a pure function from snapshot to snapshot.

use vstd::prelude::*;
use std::sync::Arc;

pub mod ctx;
pub mod undo;
pub mod amp;
pub mod channels;
pub mod delete;
pub mod fx;
pub mod paste;
pub mod sample_rates;
pub mod util;

use crate::snd::{Snd, snd_len};
use crate::console::Ptype;
use crate::util::ring_vec::Ring;
use crate::util::fx::{Fx, FX_SCALE};
use crate::samples::{min2, max2};
use ctx::Ctx;

verus! {

/// The editing session: the undo history, console output, a dirty flag and
/// the file path the session belongs to.
pub struct Editor {
    stack: undo::Stack,
    dirty: bool,
    console: Ring<Ptype, 20>,
    path: Option<String>,
}

impl Editor {
    /// The snapshot edits currently apply to.
    pub closed spec fn spec_ctx(&self) -> Ctx {
        self.stack.spec_top()
    }

    /// How many snapshots can still be undone.
    pub closed spec fn spec_depth(&self) -> nat {
        self.stack.spec_depth()
    }

    /// The first snapshot of the session, which undo never removes.
    pub closed spec fn spec_bottom(&self) -> Ctx {
        self.stack.spec_bottom()
    }

    /// The pushed snapshots above the bottom, oldest first.
    pub closed spec fn spec_history(&self) -> Seq<Ctx> {
        self.stack.spec_history()
    }

    /// Whether the session holds unsaved work.
    pub closed spec fn spec_dirty(&self) -> bool {
        self.dirty
    }

    /// The console lines, most recent first.
    pub closed spec fn spec_console(&self) -> Seq<Ptype> {
        self.console@
    }

    /// The session's file path, if one is set.
    pub closed spec fn spec_path(&self) -> Option<String> {
        self.path
    }

    /// A new session around a sound, marked dirty, with an empty console.
    pub fn new(s: Arc<Snd>, file: Option<String>) -> (r: Editor)
        requires
            s.wf(),
            s.chans().len() <= 32,
            snd_len(s.chans()) <= crate::util::fx::FX_UNIT_BOUND as int,
        ensures
            r.spec_ctx() == r.spec_bottom(),
            r.spec_ctx().snd == s,
            r.spec_ctx().wf(),
            r.spec_depth() == 0,
            r.spec_history() == Seq::<Ctx>::empty(),
            r.spec_dirty(),
            r.spec_console() == Seq::<Ptype>::empty(),
            r.spec_path() == file,
    {
        Editor {
            stack: undo::Stack::new(Ctx::from_snd(s)),
            dirty: true,
            console: Ring::new(),
            path: file,
        }
    }

    /// The current snapshot.
    pub fn ctx(&self) -> (r: &Ctx)
        ensures
            *r == self.spec_ctx(),
    {
        self.stack.top()
    }

    /// Mutable access to the current snapshot.
    pub fn ctx_mut(&mut self) -> (r: &mut Ctx)
        ensures
            *r == old(self).spec_ctx(),
            final(self).spec_ctx() == *final(r),
            final(self).spec_depth() == old(self).spec_depth(),
            old(self).spec_depth() > 0 ==> final(self).spec_bottom() == old(self).spec_bottom()
                && final(self).spec_history() == old(self).spec_history().update(
                old(self).spec_depth() - 1,
                *final(r),
            ),
            old(self).spec_depth() == 0 ==> final(self).spec_history() == old(self).spec_history()
                && final(self).spec_bottom() == *final(r),
            final(self).spec_dirty() == old(self).spec_dirty(),
            final(self).spec_console() == old(self).spec_console(),
            final(self).spec_path() == old(self).spec_path(),
    {
        self.stack.top_mut()
    }

    /// The session's file path.
    pub fn path(&self) -> (r: Option<&str>)
        ensures
            match self.spec_path() {
                Option::Some(p) => r matches Some(q) && q@ == p@,
                Option::None => r is None,
            },
    {
        match &self.path {
            Some(p) => Some(p.as_str()),
            None => None,
        }
    }

    /// Replaces the session's file path.
    pub fn set_path(&mut self, newp: Option<String>)
        ensures
            final(self).spec_path() == newp,
            final(self).spec_ctx() == old(self).spec_ctx(),
            final(self).spec_bottom() == old(self).spec_bottom(),
            final(self).spec_history() == old(self).spec_history(),
            final(self).spec_dirty() == old(self).spec_dirty(),
            final(self).spec_console() == old(self).spec_console(),
            final(self).spec_depth() == old(self).spec_depth(),
    {
        self.path = newp;
    }

    /// What playback should do for the current snapshot: the sound, the
    /// region to play (the selection if one exists, else the whole sound),
    /// the starting head, and the loop flag.
    pub fn playback_settings(&self) -> (r: (Arc<Snd>, Fx, Fx, Fx, bool))
        requires
            self.spec_ctx().wf(),
        ensures
            r.0 == self.spec_ctx().snd,
            r.4 == self.spec_ctx().loop_mode,
            ({
                let ctx = self.spec_ctx();
                let lm = snd_len(ctx.snd.chans()) * (FX_SCALE as int);
                match (ctx.cursor, ctx.selection) {
                    (Option::Some(pt), Option::None) => r.1.m() == 0 && r.2.m() == lm && r.3.m()
                        == pt.m(),
                    (Option::Some(pt), Option::Some(sl)) => {
                        &&& r.1.m() == min2(pt.m(), pt.m() + sl.m())
                        &&& r.2.m() == max2(pt.m(), pt.m() + sl.m())
                        &&& r.3.m() == min2(pt.m(), pt.m() + sl.m())
                    },
                    _ => r.1.m() == 0 && r.2.m() == lm && r.3.m() == 0,
                }
            }),
    {
        let ctx = self.stack.top();
        let snd = ctx.snd.clone();
        let snd_len_fx = Fx::from_usize(snd.len());
        proof {
            crate::snd::lemma_snd_len_nonneg(ctx.snd.chans());
        }
        match (&ctx.cursor, &ctx.selection) {
            (Some(pt), None) => (snd, Fx::zero(), snd_len_fx, *pt, ctx.loop_mode),
            (Some(pt), Some(len)) => {
                let pt2 = pt.plus(len);
                let s = pt2.min(pt);
                let e = pt.max(&pt2);
                (snd, s, e, s, ctx.loop_mode)
            },
            _ => (snd, Fx::zero(), snd_len_fx, Fx::zero(), ctx.loop_mode),
        }
    }

    /// Prints an informational line to the console.
    pub fn print_nfo(&mut self, msg: String)
        ensures
            final(self).spec_console() == seq![Ptype::Nfo(msg)].add(old(self).spec_console()).take(
                min2(20, old(self).spec_console().len() as int + 1),
            ),
            final(self).spec_ctx() == old(self).spec_ctx(),
            final(self).spec_depth() == old(self).spec_depth(),
            final(self).spec_bottom() == old(self).spec_bottom(),
            final(self).spec_history() == old(self).spec_history(),
            final(self).spec_dirty() == old(self).spec_dirty(),
            final(self).spec_path() == old(self).spec_path(),
    {
        self.console.push(Ptype::Nfo(msg));
        proof {
            assert(self.spec_console() =~= seq![Ptype::Nfo(msg)].add(old(self).spec_console()).take(
                min2(20, old(self).spec_console().len() as int + 1),
            ));
        }
    }

    /// Prints an error line to the console.
    pub fn print_err(&mut self, msg: String)
        ensures
            final(self).spec_console() == seq![Ptype::Fault(msg)].add(old(self).spec_console()).take(
                min2(20, old(self).spec_console().len() as int + 1),
            ),
            final(self).spec_ctx() == old(self).spec_ctx(),
            final(self).spec_depth() == old(self).spec_depth(),
            final(self).spec_bottom() == old(self).spec_bottom(),
            final(self).spec_history() == old(self).spec_history(),
            final(self).spec_dirty() == old(self).spec_dirty(),
            final(self).spec_path() == old(self).spec_path(),
    {
        self.console.push(Ptype::Fault(msg));
        proof {
            assert(self.spec_console() =~= seq![Ptype::Fault(msg)].add(old(self).spec_console()).take(
                min2(20, old(self).spec_console().len() as int + 1),
            ));
        }
    }

    /// Clears the console.
    pub fn clear_console(&mut self)
        ensures
            final(self).spec_console() == Seq::<Ptype>::empty(),
            final(self).spec_ctx() == old(self).spec_ctx(),
            final(self).spec_depth() == old(self).spec_depth(),
            final(self).spec_bottom() == old(self).spec_bottom(),
            final(self).spec_history() == old(self).spec_history(),
            final(self).spec_dirty() == old(self).spec_dirty(),
            final(self).spec_path() == old(self).spec_path(),
    {
        self.console.clear()
    }

    /// The console lines, oldest first.
    pub fn con_txt(&self) -> (r: Vec<Ptype>)
        ensures
            r@.len() == self.spec_console().len(),
            forall|i: int|
                0 <= i < r@.len() ==> #[trigger] r@[i] == self.spec_console()[self.spec_console().len()
                    - 1 - i],
    {
        let r = self.console.iter();
        proof {
            assert forall|i: int| 0 <= i < r@.len() implies #[trigger] r@[i]
                == self.spec_console()[self.spec_console().len() - 1 - i] by {
                assert(vstd::pervasive::cloned::<Ptype>(
                    self.spec_console()[self.spec_console().len() - 1 - i],
                    r@[i],
                ));
            }
        }
        r
    }

    /// Steps back: discards exactly the most recent snapshot, so the
    /// previous one (or the bottom) becomes current; at the bottom nothing
    /// changes.
    pub fn undo(&mut self)
        ensures
            final(self).spec_bottom() == old(self).spec_bottom(),
            old(self).spec_depth() > 0 ==> final(self).spec_depth() == old(self).spec_depth() - 1
                && final(self).spec_history() == old(self).spec_history().drop_last() && final(self).spec_ctx() == (if old(self).spec_depth() >= 2 {
                old(self).spec_history()[old(self).spec_depth() - 2]
            } else {
                old(self).spec_bottom()
            }),
            old(self).spec_depth() == 0 ==> final(self).spec_depth() == 0 && final(self).spec_history() == old(self).spec_history() && final(self).spec_ctx() == old(self).spec_ctx(),
            final(self).spec_dirty() == old(self).spec_dirty(),
            final(self).spec_console() == old(self).spec_console(),
            final(self).spec_path() == old(self).spec_path(),
    {
        proof {
            self.stack.lemma_shape();
        }
        self.stack.pop();
        proof {
            self.stack.lemma_shape();
        }
    }

    /// Records a new snapshot as the current one and marks the session dirty.
    pub fn push_new(&mut self, ctx: Ctx)
        ensures
            final(self).spec_ctx() == ctx,
            final(self).spec_depth() == old(self).spec_depth() + 1,
            final(self).spec_history() == old(self).spec_history().push(ctx),
            final(self).spec_bottom() == old(self).spec_bottom(),
            final(self).spec_dirty(),
            final(self).spec_console() == old(self).spec_console(),
            final(self).spec_path() == old(self).spec_path(),
    {
        self.stack.push(ctx);
        self.dirty = true;
    }

    /// Whether the session holds unsaved work.
    pub fn dirty(&self) -> (r: bool)
        ensures
            r == self.spec_dirty(),
    {
        self.dirty
    }

    /// Marks the session saved.
    pub fn clean_up(&mut self)
        ensures
            !final(self).spec_dirty(),
            final(self).spec_ctx() == old(self).spec_ctx(),
            final(self).spec_depth() == old(self).spec_depth(),
            final(self).spec_bottom() == old(self).spec_bottom(),
            final(self).spec_history() == old(self).spec_history(),
            final(self).spec_console() == old(self).spec_console(),
            final(self).spec_path() == old(self).spec_path(),
    {
        self.dirty = false;
    }

    /// Marks the session dirty.
    pub fn dirty_up(&mut self)
        ensures
            final(self).spec_dirty(),
            final(self).spec_ctx() == old(self).spec_ctx(),
            final(self).spec_depth() == old(self).spec_depth(),
            final(self).spec_bottom() == old(self).spec_bottom(),
            final(self).spec_history() == old(self).spec_history(),
            final(self).spec_console() == old(self).spec_console(),
            final(self).spec_path() == old(self).spec_path(),
    {
        self.dirty = true;
    }

    /// Throws the history away and starts over from one snapshot.
    pub fn reset_stack(&mut self, ctx: Ctx)
        ensures
            final(self).spec_ctx() == ctx,
            final(self).spec_bottom() == ctx,
            final(self).spec_depth() == 0,
            final(self).spec_history() == Seq::<Ctx>::empty(),
            final(self).spec_dirty(),
            final(self).spec_console() == old(self).spec_console(),
            final(self).spec_path() == old(self).spec_path(),
    {
        self.stack = undo::Stack::new(ctx);
        self.dirty = true;
    }
}

} // verus!
