//! Depth bookkeeping when pictures are replayed onto a surface.
//!
//! A surface queues one renderer per recorded entry. Pictures replayed one
//! after the other stack their depths: the entries of a later picture are
//! offset by the number of renderers already queued. When the surface is
//! flushed every depth is normalized by the total depth count, one more than
//! the number of renderers.
use vstd::prelude::*;
use crate::picture::{Draw, Picture};

verus! {

/// The depths at which the entries `draws` are rendered after `offset`
/// renderers.
pub open spec fn offset_depths<C, M>(draws: Seq<Draw<C, M>>, offset: int) -> Seq<u32> {
    Seq::new(draws.len(), |k: int| (draws[k].depth + offset) as u32)
}

/// Whether the entries `draws` can be queued after `offset` renderers.
pub open spec fn fits_after<C, M>(draws: Seq<Draw<C, M>>, offset: int) -> bool {
    &&& offset + draws.len() < u32::MAX
    &&& forall|k: int| 0 <= k < draws.len() ==> #[trigger] draws[k].depth + offset <= u32::MAX
}

/// The renderer depths queued on one surface.
pub struct ReplayQueue {
    depths: Vec<u32>,
}

impl View for ReplayQueue {
    type V = Seq<u32>;

    closed spec fn view(&self) -> Seq<u32> {
        self.depths@
    }
}

impl ReplayQueue {
    pub fn new() -> (r: Self)
        ensures
            r@.len() == 0,
    {
        ReplayQueue { depths: Vec::new() }
    }

    /// Queues the entries of `picture`, which is only read.
    pub fn replay<C, M>(&mut self, picture: &Picture<C, M>)
        requires
            fits_after(picture.draws@, old(self)@.len() as int),
        ensures
            final(self)@ == old(self)@ + offset_depths(picture.draws@, old(self)@.len() as int),
    {
        let offset = self.depths.len() as u32;
        let ghost start = self.depths@;
        let mut k: usize = 0;
        while k < picture.draws.len()
            invariant
                0 <= k <= picture.draws@.len(),
                offset == start.len(),
                start == old(self)@,
                fits_after(picture.draws@, offset as int),
                self.depths@ == start + offset_depths(picture.draws@, offset as int).take(k as int),
            decreases picture.draws@.len() - k,
        {
            let d = picture.draws[k].depth + offset;
            self.depths.push(d);
            proof {
                let o = offset_depths(picture.draws@, offset as int);
                assert(o.take(k + 1) =~= o.take(k as int).push(o[k as int]));
            }
            k = k + 1;
        }
        proof {
            let o = offset_depths(picture.draws@, offset as int);
            assert(o.take(o.len() as int) =~= o);
        }
    }

    /// The number of renderers queued.
    pub fn len(&self) -> (r: usize)
        ensures
            r == self@.len(),
    {
        self.depths.len()
    }

    /// The depth of each queued renderer, in queue order.
    pub fn depths(&self) -> (r: &Vec<u32>)
        ensures
            r@ == self@,
    {
        &self.depths
    }

    /// The count that depths are normalized by: one more than the number of
    /// renderers, so that every normalized depth lies strictly below 1.
    pub fn total_depth(&self) -> (r: u32)
        requires
            self@.len() < u32::MAX,
        ensures
            r == self@.len() + 1,
    {
        self.depths.len() as u32 + 1
    }
}

/// Samples per pixel of the color and depth-stencil attachments.
pub fn sample_count(anti_alias: bool) -> (r: u32)
    ensures
        r == if anti_alias {
            4u32
        } else {
            1u32
        },
{
    if anti_alias {
        4
    } else {
        1
    }
}

/// Replaying one picture onto two fresh surfaces queues the same renderer
/// depths on both: replay reads the picture and nothing else.
pub proof fn lemma_replay_independent<C, M>(a: Seq<u32>, b: Seq<u32>, draws: Seq<Draw<C, M>>)
    requires
        a.len() == 0,
        b.len() == 0,
    ensures
        a + offset_depths(draws, a.len() as int) == b + offset_depths(draws, b.len() as int),
{
    assert(a =~= b);
}

} // verus!
