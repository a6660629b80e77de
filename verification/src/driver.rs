//! The render driver's book-keeping: the order in which tiles are handed
//! out, the progress of a render, and what the framebuffer's consumer does
//! with each message of the workers.

use crate::renderer::{all_in_buffer, with_pixels, Pixel, Renderer};
use crate::tiles::{getBBoxesFor, tiles, BBox};
use std::sync::Arc;
use vstd::prelude::*;

verus! {

/// How far a render is: `completed` of `total` tiles are done. It stands for
/// the fraction `completed / total`.
#[derive(PartialEq, Eq, Structural, Debug, Copy, Clone)]
pub struct Progress {
    pub completed: usize,
    pub total: usize,
}

impl Progress {
    /// The fraction has reached one.
    pub open spec fn done(self) -> bool {
        self.completed >= self.total
    }

    /// The fraction `self` is at most the fraction `other`.
    pub open spec fn le(self, other: Progress) -> bool {
        self.completed * other.total <= other.completed * self.total
    }

    /// Whether the render is complete.
    pub fn is_complete(&self) -> (r: bool)
        ensures
            r == self.done(),
    {
        self.completed >= self.total
    }
}

/// Counts the tiles that are done. Each finished tile adds `1 / total` to the
/// fraction that the aggregator reports.
pub struct ProgressAggregator {
    completed: usize,
    total: usize,
}

impl ProgressAggregator {
    /// What has been reported last, or nothing of `total` at the start.
    pub closed spec fn progress(&self) -> Progress {
        Progress { completed: self.completed, total: self.total }
    }

    /// An aggregator for a render of `total` tiles, none of them done.
    pub fn new(total: usize) -> (a: ProgressAggregator)
        ensures
            a.progress() == (Progress { completed: 0, total }),
    {
        ProgressAggregator { completed: 0, total }
    }

    /// Takes note that one more tile is done and gives the progress to
    /// report. Once the render is complete the aggregator has ended: further
    /// signals report nothing and change nothing.
    pub fn tile_done(&mut self) -> (r: Option<Progress>)
        ensures
            old(self).progress().done() ==> r is None && final(self).progress() == old(
                self,
            ).progress(),
            !old(self).progress().done() ==> r == Some(final(self).progress())
                && final(self).progress() == (Progress {
                completed: (old(self).progress().completed + 1) as usize,
                total: old(self).progress().total,
            }),
    {
        if self.completed >= self.total {
            None
        } else {
            self.completed = self.completed + 1;
            Some(Progress { completed: self.completed, total: self.total })
        }
    }
}

/// Over a render of `total` tiles the reports are `1 / total`, `2 / total`
/// and so on: they never decrease, and the only one that has reached one is
/// the last, report number `total`.
pub proof fn lemma_progress_is_monotone(total: usize, a: usize, b: usize)
    requires
        1 <= a <= b <= total,
    ensures
        (Progress { completed: a, total }).le(Progress { completed: b, total }),
        (Progress { completed: b, total }).done() <==> b == total,
{
    assert(a * total <= b * total) by (nonlinear_arith)
        requires
            a <= b,
            0 <= total,
    ;
}

/// The pixels of one tile, as a worker hands them over.
pub struct PartialRenderMessagePixels {
    pub pixel_data: Arc<Vec<Pixel>>,
    pub bbox: BBox,
}

/// What workers and the aggregator send to the framebuffer's consumer.
pub enum PartialRenderMessage {
    PixelData(PartialRenderMessagePixels),
    Progress(Progress),
}

/// One step of the framebuffer's consumer: pixels are written into the
/// framebuffer, a progress report is looked at. The result says whether the
/// consumer is done, which it is at the first report that has reached one.
pub fn render_step(renderer: &mut Renderer, message: &PartialRenderMessage) -> (done: bool)
    requires
        old(renderer).wf(),
        message matches PartialRenderMessage::PixelData(m) ==> all_in_buffer(
            old(renderer).spec_width() as int,
            old(renderer).spec_height() as int,
            m.pixel_data@,
        ),
    ensures
        final(renderer).wf(),
        final(renderer).spec_width() == old(renderer).spec_width(),
        final(renderer).spec_height() == old(renderer).spec_height(),
        match message {
            PartialRenderMessage::PixelData(m) => !done && final(renderer).spec_data()
                == with_pixels(
                old(renderer).spec_data(),
                old(renderer).spec_width() as int,
                m.pixel_data@,
            ),
            PartialRenderMessage::Progress(p) => done == p.done() && final(renderer).spec_data()
                == old(renderer).spec_data(),
        },
{
    match message {
        PartialRenderMessage::PixelData(m) => {
            renderer.write_pixels(&m.pixel_data);
            false
        },
        PartialRenderMessage::Progress(p) => p.is_complete(),
    }
}

/// The tiles of a `width` by `height` image in the order in which they are
/// handed to the workers: the spiral backwards, so that work begins at the
/// centre of the image. There is no such list where the image is cut zero
/// times, or where a size or the number of tiles is beyond `i32::MAX`.
pub fn draw_order(width: u64, height: u64, subdivisions: usize) -> (r: Option<Vec<BBox>>)
    ensures
        r is Some <==> 1 <= subdivisions && subdivisions * subdivisions <= i32::MAX && width
            <= i32::MAX && height <= i32::MAX,
        r matches Some(order) ==> order@ == tiles(
            width as int,
            height as int,
            subdivisions as int,
        ).reverse(),
{
    if subdivisions < 1 || subdivisions > 46340 || width > 0x7fff_ffff || height > 0x7fff_ffff {
        proof {
            let n = subdivisions as int;
            assert(n > 46340 ==> n * n > i32::MAX) by (nonlinear_arith);
        }
        return None;
    }
    proof {
        let n = subdivisions as int;
        assert(n * n <= 46340 * 46340) by (nonlinear_arith)
            requires
                1 <= n <= 46340,
        ;
    }
    let spiral = getBBoxesFor(width as i32, height as i32, subdivisions as i32);
    let mut order: Vec<BBox> = Vec::new();
    let mut left: usize = spiral.len();
    while left > 0
        invariant
            left <= spiral@.len(),
            order@.len() == spiral@.len() - left,
            forall|i: int| 0 <= i < order@.len() ==> order@[i] == spiral@[spiral@.len() - 1 - i],
        decreases left,
    {
        left -= 1;
        order.push(spiral[left]);
    }
    assert(order@ =~= spiral@.reverse());
    Some(order)
}

} // verus!
