//! What a camera receiver decides between frames: which rotation and grid it
//! tries on a new camera frame, in which order, and what it remembers of the
//! attempt that read. Fitting the grid to the image is the caller's work; it
//! reports back which attempt, if any, read.

use vstd::prelude::*;
use crate::layout::Layout;
use crate::scan::{candidate_layouts, forced_layout, forced_layout_spec, quarter_turns, scan_candidates};

verus! {

/// One attempt at reading a camera frame: a rotation (degrees) and a grid.
#[derive(Clone, Copy, Debug, PartialEq, Eq, Structural)]
pub enum ScanTry {
    /// Follow the corners found in the previous camera frame.
    Follow(u32, Layout),
    /// A guide frame where the image texture places the code.
    Locate(u32, Layout),
    /// Centred guide frames, with the rotation and grid that last read.
    Recall(u32, Layout),
    /// Centred guide frames, with the camera's rotation and a candidate grid.
    Search(u32, Layout),
}

impl ScanTry {
    pub open spec fn spec_rotation(self) -> u32 {
        match self {
            ScanTry::Follow(r, _) => r,
            ScanTry::Locate(r, _) => r,
            ScanTry::Recall(r, _) => r,
            ScanTry::Search(r, _) => r,
        }
    }

    pub open spec fn spec_layout(self) -> Layout {
        match self {
            ScanTry::Follow(_, l) => l,
            ScanTry::Locate(_, l) => l,
            ScanTry::Recall(_, l) => l,
            ScanTry::Search(_, l) => l,
        }
    }

    /// The rotation the image is turned upright by for this attempt.
    pub fn rotation(&self) -> (r: u32)
        ensures
            r == self.spec_rotation(),
    {
        match self {
            ScanTry::Follow(r, _) => *r,
            ScanTry::Locate(r, _) => *r,
            ScanTry::Recall(r, _) => *r,
            ScanTry::Search(r, _) => *r,
        }
    }

    /// The grid this attempt looks for.
    pub fn layout(&self) -> (l: Layout)
        ensures
            l == self.spec_layout(),
    {
        match self {
            ScanTry::Follow(_, l) => *l,
            ScanTry::Locate(_, l) => *l,
            ScanTry::Recall(_, l) => *l,
            ScanTry::Search(_, l) => *l,
        }
    }
}

/// What a receiver remembers between camera frames (the corners it follows
/// are image coordinates and stay with the caller).
#[derive(Clone, Copy, Debug)]
pub struct RxTrack {
    /// Rotation and grid of the previous camera frame, when it read.
    pub following: Option<(u32, Layout)>,
    /// Rotation and grid that last read, tried first once tracking is lost.
    pub last_ok: Option<(u32, Layout)>,
    /// A fixed grid to look for.
    pub forced: Option<Layout>,
}

/// The attempts on a new camera frame, in order: follow the previous frame
/// if it read; then locate the code in the image, with the rotation and grid
/// that last read or else with the fixed grid at the camera's rotation; then
/// centred guide frames with the rotation and grid that last read; then the
/// camera's rotation with each grid a scan tries.
pub open spec fn scan_plan_spec(t: RxTrack, rotation_deg: u32) -> Seq<ScanTry> {
    let follow = match t.following {
        Some((r, l)) => seq![ScanTry::Follow(r, l)],
        None => Seq::empty(),
    };
    let locate = match t.last_ok {
        Some((r, l)) => seq![ScanTry::Locate(r, l)],
        None => match t.forced {
            Some(l) => seq![ScanTry::Locate((rotation_deg % 360) as u32, l)],
            None => Seq::empty(),
        },
    };
    let recall = match t.last_ok {
        Some((r, l)) => seq![ScanTry::Recall(r, l)],
        None => Seq::empty(),
    };
    let rot = (rotation_deg % 360) as u32;
    let grids = match t.forced {
        Some(l) => seq![l],
        None => candidate_layouts(),
    };
    follow + locate + recall + grids.map_values(|l: Layout| ScanTry::Search(rot, l))
}

/// What the receiver remembers after a camera frame: the attempt that read
/// is followed next; one that followed, located or searched also becomes
/// the rotation and grid that last read. A frame that did not read ends the
/// following. The fixed grid stays.
pub open spec fn after_scan_spec(t: RxTrack, read: Option<ScanTry>) -> RxTrack {
    match read {
        Some(s) => RxTrack {
            following: Some((s.spec_rotation(), s.spec_layout())),
            last_ok: match s {
                ScanTry::Recall(_, _) => t.last_ok,
                _ => Some((s.spec_rotation(), s.spec_layout())),
            },
            forced: t.forced,
        },
        None => RxTrack { following: None, last_ok: t.last_ok, forced: t.forced },
    }
}

impl RxTrack {
    /// A receiver that has read nothing and looks for any grid.
    pub fn new() -> (t: RxTrack)
        ensures
            t.following is None,
            t.last_ok is None,
            t.forced is None,
    {
        RxTrack { following: None, last_ok: None, forced: None }
    }

    /// Fixes the grid to look for (`grid_w` or `grid_h` 0 lifts it).
    pub fn set_layout(&mut self, grid_w: u8, grid_h: u8)
        ensures
            final(self).forced == forced_layout_spec(grid_w, grid_h),
            final(self).following == old(self).following,
            final(self).last_ok == old(self).last_ok,
    {
        self.forced = forced_layout(grid_w, grid_h);
    }

    /// The attempts to make on a camera frame that the camera reports turned
    /// by `rotation_deg`, in order.
    pub fn scan_plan(&self, rotation_deg: u32) -> (plan: Vec<ScanTry>)
        ensures
            plan@ == scan_plan_spec(*self, rotation_deg),
    {
        let mut plan: Vec<ScanTry> = Vec::new();
        if let Some((r, l)) = self.following {
            plan.push(ScanTry::Follow(r, l));
        }
        let rot = quarter_turns(rotation_deg)[0];
        match self.last_ok {
            Some((r, l)) => plan.push(ScanTry::Locate(r, l)),
            None => {
                if let Some(l) = self.forced {
                    plan.push(ScanTry::Locate(rot, l));
                }
            },
        }
        if let Some((r, l)) = self.last_ok {
            plan.push(ScanTry::Recall(r, l));
        }
        let grids = scan_candidates(self.forced);
        let ghost head = plan@;
        let ghost want = grids@.map_values(|l: Layout| ScanTry::Search(rot, l));
        let mut k: usize = 0;
        while k < grids.len()
            invariant
                k <= grids@.len(),
                want == grids@.map_values(|l: Layout| ScanTry::Search(rot, l)),
                plan@ == head + want.subrange(0, k as int),
            decreases grids.len() - k,
        {
            plan.push(ScanTry::Search(rot, grids[k]));
            assert(want.subrange(0, k + 1) =~= want.subrange(0, k as int).push(want[k as int]));
            k = k + 1;
        }
        assert(want.subrange(0, grids@.len() as int) =~= want);
        assert(rot == (rotation_deg % 360) as u32);
        assert(plan@ =~= scan_plan_spec(*self, rotation_deg));
        plan
    }

    /// Records how a camera frame went: the attempt that read, or `None`.
    pub fn after_scan(&mut self, read: Option<ScanTry>)
        ensures
            *final(self) == after_scan_spec(*old(self), read),
    {
        match read {
            Some(s) => {
                let rl = (s.rotation(), s.layout());
                self.following = Some(rl);
                match s {
                    ScanTry::Recall(_, _) => {},
                    _ => {
                        self.last_ok = Some(rl);
                    },
                }
            },
            None => {
                self.following = None;
            },
        }
    }

    /// Starts following a code found by a wider search, with the given
    /// rotation and grid.
    pub fn seed(&mut self, rot: u32, grid_w: u8, grid_h: u8)
        ensures
            final(self).following == Some(
                (rot, (Layout { block: Layout::BLOCK, grid_w: grid_w as usize, grid_h: grid_h as usize })),
            ),
            final(self).last_ok == final(self).following,
            final(self).forced == old(self).forced,
    {
        let l = Layout::from_grid(grid_w as usize, grid_h as usize);
        self.following = Some((rot, l));
        self.last_ok = Some((rot, l));
    }
}

/// A camera frame that read is followed first on the next camera frame.
pub proof fn lemma_read_is_followed(t: RxTrack, s: ScanTry, rotation_deg: u32)
    ensures
        scan_plan_spec(after_scan_spec(t, Some(s)), rotation_deg)[0] == ScanTry::Follow(
            s.spec_rotation(),
            s.spec_layout(),
        ),
{
}

/// Once a camera frame does not read, the next one is tried first with the
/// rotation and grid that last read, if any did (located in the image, then
/// in centred guide frames); else with the camera's rotation and the fixed
/// grid (located, then searched) or the first grid a scan tries.
pub proof fn lemma_lost_tries_last_ok(t: RxTrack, rotation_deg: u32)
    ensures
        ({
            let plan = scan_plan_spec(after_scan_spec(t, None), rotation_deg);
            let rot = (rotation_deg % 360) as u32;
            match t.last_ok {
                Some((r, l)) => plan[0] == ScanTry::Locate(r, l) && plan[1] == ScanTry::Recall(r, l),
                None => match t.forced {
                    Some(l) => plan[0] == ScanTry::Locate(rot, l) && plan[1] == ScanTry::Search(
                        rot,
                        l,
                    ),
                    None => plan[0] == ScanTry::Search(rot, Layout::v1_dense()),
                },
            }
        }),
{
}

/// Every plan ends with the camera's rotation and each grid a scan tries,
/// whatever the receiver remembers; the fixed grid never changes by
/// scanning.
pub proof fn lemma_plan_ends_with_search(t: RxTrack, read: Option<ScanTry>, rotation_deg: u32)
    ensures
        ({
            let plan = scan_plan_spec(t, rotation_deg);
            let grids = match t.forced {
                Some(l) => seq![l],
                None => candidate_layouts(),
            };
            let n = plan.len() - grids.len();
            &&& n >= 0
            &&& forall|k: int|
                0 <= k < grids.len() ==> #[trigger] plan[n + k] == ScanTry::Search(
                    (rotation_deg % 360) as u32,
                    grids[k],
                )
        }),
        after_scan_spec(t, read).forced == t.forced,
{
}

} // verus!
