//! Presentation-surface bookkeeping.
//!
//! The platform owns the actual image set; this module owns the decisions
//! taken when the surface is created or recreated — which presentation mode,
//! image count, extent and usage flags to ask for — and the counters that
//! the frame loop relies on: how many images rotate and which one is
//! current.

use vstd::prelude::*;

verus! {

/// A presentation mode offered by the platform, by preference class.
#[derive(Debug, Clone, Copy, PartialEq, Eq, Structural)]
pub enum PresentModeKind {
    Mailbox,
    Immediate,
    FifoRelaxed,
    Fifo,
    Other,
}

/// The surface's preference rank for a presentation mode; lower is better.
pub open spec fn spec_mode_rank(m: PresentModeKind) -> int {
    match m {
        PresentModeKind::Mailbox => 1,
        PresentModeKind::Immediate => 2,
        PresentModeKind::FifoRelaxed => 3,
        PresentModeKind::Fifo => 4,
        PresentModeKind::Other => 5,
    }
}

/// The preference rank of `m`; lower is better.
pub fn mode_rank(m: PresentModeKind) -> (r: u32)
    ensures
        r as int == spec_mode_rank(m),
{
    match m {
        PresentModeKind::Mailbox => 1,
        PresentModeKind::Immediate => 2,
        PresentModeKind::FifoRelaxed => 3,
        PresentModeKind::Fifo => 4,
        PresentModeKind::Other => 5,
    }
}

/// Picks the best-ranked mode the platform offers; among equally ranked
/// offers the first wins, and an empty offer falls back to `Fifo` (the mode
/// every platform must support).
pub fn choose_present_mode(modes: &Vec<PresentModeKind>) -> (r: PresentModeKind)
    ensures
        modes@.len() == 0 ==> r == PresentModeKind::Fifo,
        modes@.len() > 0 ==> exists|j: int|
            {
                &&& 0 <= j < modes@.len()
                &&& #[trigger] modes@[j] == r
                &&& forall|k: int|
                    0 <= k < modes@.len() ==> spec_mode_rank(#[trigger] modes@[k])
                        >= spec_mode_rank(r)
                &&& forall|k: int| 0 <= k < j ==> spec_mode_rank(#[trigger] modes@[k]) > spec_mode_rank(r)
            },
{
    let n = modes.len();
    if n == 0 {
        return PresentModeKind::Fifo;
    }
    let mut best: PresentModeKind = modes[0];
    let mut best_rank: u32 = mode_rank(best);
    let ghost mut bj: int = 0;
    let mut i: usize = 1;
    while i < n
        invariant
            n == modes@.len(),
            n > 0,
            1 <= i <= n,
            0 <= bj < i,
            modes@[bj] == best,
            best_rank as int == spec_mode_rank(best),
            forall|k: int| 0 <= k < i ==> spec_mode_rank(#[trigger] modes@[k]) >= best_rank as int,
            forall|k: int| 0 <= k < bj ==> spec_mode_rank(#[trigger] modes@[k]) > best_rank as int,
        decreases n - i,
    {
        let rk = mode_rank(modes[i]);
        if rk < best_rank {
            best = modes[i];
            best_rank = rk;
            proof {
                bj = i as int;
            }
        }
        i += 1;
    }
    proof {
        assert({
            &&& 0 <= bj < modes@.len()
            &&& modes@[bj] == best
            &&& forall|k: int|
                0 <= k < modes@.len() ==> spec_mode_rank(#[trigger] modes@[k]) >= spec_mode_rank(
                    best,
                )
            &&& forall|k: int| 0 <= k < bj ==> spec_mode_rank(#[trigger] modes@[k]) > spec_mode_rank(best)
        });
    }
    best
}

/// The image count requested for the surface: triple buffering, clamped to
/// the limits the platform reports.
pub fn choose_image_count(min_count: u32, max_count: Option<u32>) -> (r: u32)
    requires
        match max_count {
            Some(mx) => min_count <= mx,
            None => true,
        },
    ensures
        ({
            let hi = match max_count {
                Some(mx) => mx,
                None => min_count,
            };
            r == if 3 < min_count {
                min_count
            } else if 3 > hi {
                hi
            } else {
                3u32
            }
        }),
{
    let hi = match max_count {
        Some(mx) => mx,
        None => min_count,
    };
    if 3 < min_count {
        min_count
    } else if 3 > hi {
        hi
    } else {
        3
    }
}

/// The extent the surface is built with: the platform-reported current
/// extent wins over the requested size.
pub fn choose_extent(current: Option<(u32, u32)>, width: u32, height: u32) -> (r: (u32, u32))
    ensures
        r == match current {
            Some(e) => e,
            None => (width, height),
        },
{
    match current {
        Some(e) => e,
        None => (width, height),
    }
}

/// A color format offered by the platform, as far as the surface cares.
#[derive(Debug, Clone, Copy, PartialEq, Eq, Structural)]
pub enum ColorFormat {
    B8G8R8A8Unorm,
    Other,
}

/// A color space offered by the platform, as far as the surface cares.
#[derive(Debug, Clone, Copy, PartialEq, Eq, Structural)]
pub enum ColorSpaceKind {
    SrgbNonLinear,
    Other,
}

/// Picks the surface format: the first offered pair that is exactly
/// eight-bit BGRA with the non-linear sRGB color space; `None` when the
/// platform offers no such pair (the caller then falls back to the
/// platform's default).
pub fn choose_surface_format(formats: &Vec<(ColorFormat, ColorSpaceKind)>) -> (r: Option<usize>)
    ensures
        match r {
            Some(j) => {
                &&& j < formats@.len()
                &&& formats@[j as int] == (ColorFormat::B8G8R8A8Unorm, ColorSpaceKind::SrgbNonLinear)
                &&& forall|k: int|
                    0 <= k < j ==> #[trigger] formats@[k] != (
                        ColorFormat::B8G8R8A8Unorm,
                        ColorSpaceKind::SrgbNonLinear,
                    )
            },
            None => forall|k: int|
                0 <= k < formats@.len() ==> #[trigger] formats@[k] != (
                    ColorFormat::B8G8R8A8Unorm,
                    ColorSpaceKind::SrgbNonLinear,
                ),
        },
{
    let n = formats.len();
    for j in 0..n
        invariant
            n == formats@.len(),
            forall|k: int|
                0 <= k < j ==> #[trigger] formats@[k] != (
                    ColorFormat::B8G8R8A8Unorm,
                    ColorSpaceKind::SrgbNonLinear,
                ),
    {
        let (f, cs) = formats[j];
        if matches!(f, ColorFormat::B8G8R8A8Unorm) && matches!(cs, ColorSpaceKind::SrgbNonLinear) {
            return Some(j);
        }
    }
    None
}

/// The image-usage flags requested for the surface: color attachment always,
/// transfer endpoints only where the platform supports them.
#[derive(Debug, Clone, Copy, PartialEq, Eq, Structural)]
pub struct ImageUsageFlags {
    pub color_attachment: bool,
    pub transfer_src: bool,
    pub transfer_dst: bool,
}

/// The usage flags for a surface whose platform supports the given transfer
/// directions.
pub fn choose_image_usage(supports_transfer_src: bool, supports_transfer_dst: bool) -> (r:
    ImageUsageFlags)
    ensures
        r.color_attachment,
        r.transfer_src == supports_transfer_src,
        r.transfer_dst == supports_transfer_dst,
{
    ImageUsageFlags {
        color_attachment: true,
        transfer_src: supports_transfer_src,
        transfer_dst: supports_transfer_dst,
    }
}

/// The rotating image set of a built surface: how many images it holds,
/// which one the last acquire handed out, and the extent it was built with.
pub struct RenderSwapchain {
    current_frame: u32,
    max_frame_in_flight: u32,
    extent: (u32, u32),
}

impl RenderSwapchain {
    /// The index of the image the last acquire handed out.
    pub closed spec fn spec_current_frame(&self) -> u32 {
        self.current_frame
    }

    /// How many images rotate through the surface.
    pub closed spec fn spec_max_frame_in_flight(&self) -> u32 {
        self.max_frame_in_flight
    }

    /// The extent the image set was built with.
    pub closed spec fn spec_extent(&self) -> (u32, u32) {
        self.extent
    }

    /// The image index stays inside the image set.
    pub open spec fn wf(&self) -> bool {
        self.spec_current_frame() < self.spec_max_frame_in_flight()
    }

    /// Records a freshly built image set.
    pub fn new(image_count: u32, extent: (u32, u32)) -> (r: Self)
        requires
            image_count >= 1,
        ensures
            r.wf(),
            r.spec_current_frame() == 0,
            r.spec_max_frame_in_flight() == image_count,
            r.spec_extent() == extent,
    {
        RenderSwapchain { current_frame: 0, max_frame_in_flight: image_count, extent }
    }

    /// Records a rebuilt image set: the platform-reported extent wins over
    /// the requested one, and the current image resets.
    pub fn recreate(
        &mut self,
        image_count: u32,
        platform_extent: Option<(u32, u32)>,
        width: u32,
        height: u32,
    )
        requires
            image_count >= 1,
        ensures
            final(self).wf(),
            final(self).spec_current_frame() == 0,
            final(self).spec_max_frame_in_flight() == image_count,
            final(self).spec_extent() == match platform_extent {
                Some(e) => e,
                None => (width, height),
            },
    {
        let extent = choose_extent(platform_extent, width, height);
        self.current_frame = 0;
        self.max_frame_in_flight = image_count;
        self.extent = extent;
    }

    /// Records which image an acquire handed out.
    pub fn record_acquire(&mut self, image_index: u32)
        requires
            old(self).wf(),
            image_index < old(self).spec_max_frame_in_flight(),
        ensures
            final(self).wf(),
            final(self).spec_current_frame() == image_index,
            final(self).spec_max_frame_in_flight() == old(self).spec_max_frame_in_flight(),
            final(self).spec_extent() == old(self).spec_extent(),
    {
        self.current_frame = image_index;
    }

    /// The current image index.
    pub fn get_current_frame(&self) -> (r: u32)
        ensures
            r == self.spec_current_frame(),
    {
        self.current_frame
    }

    /// The number of images in the set.
    pub fn get_max_frame_in_flight(&self) -> (r: u32)
        ensures
            r == self.spec_max_frame_in_flight(),
    {
        self.max_frame_in_flight
    }
}

} // verus!
