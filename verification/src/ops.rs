//! Applying a profile: the computed part.
//!
//! Applying a profile means invoking helper processes (a display placement
//! tool and an audio switch tool).  This module computes exactly what those
//! invocations are — the placement descriptor strings and the output device
//! to switch to — as a pure `ApplyPlan`.  The surrounding application spawns
//! the processes; looking up an absent id fails here, before any plan
//! exists, so nothing is ever spawned for it.

use vstd::prelude::*;
use crate::model::{AudioSettings, DisplayInfo, DisplayInfoView, Profile};
use crate::store::{first_match, has_id, ProfileStore};
use crate::text::{dec_digits, render_i32, render_i32_into, render_u32_into};

verus! {

/// One display placement descriptor, as the placement helper expects it:
/// `id:<id> res:<width>x<height> origin:(<x>,<y>) degree:<rotation>`.
pub open spec fn placement_arg(d: DisplayInfoView) -> Seq<char> {
    "id:"@ + dec_digits(d.id as nat) + " res:"@ + dec_digits(d.width as nat) + "x"@ + dec_digits(
        d.height as nat,
    ) + " origin:("@ + render_i32(d.x as int) + ","@ + render_i32(d.y as int) + ") degree:"@
        + dec_digits(d.rotation as nat)
}

/// Builds one placement descriptor.
pub fn placement_arg_of(d: &DisplayInfo) -> (r: String)
    ensures
        r@ == placement_arg(d@),
{
    let mut out = String::new();
    out.append("id:");
    render_u32_into(&mut out, d.id);
    out.append(" res:");
    render_u32_into(&mut out, d.width);
    out.append("x");
    render_u32_into(&mut out, d.height);
    out.append(" origin:(");
    render_i32_into(&mut out, d.x);
    out.append(",");
    render_i32_into(&mut out, d.y);
    out.append(") degree:");
    render_u32_into(&mut out, d.rotation);
    proof {
        assert(out@ =~= placement_arg(d@));
    }
    out
}

/// Builds the placement descriptors for a whole display list, one per
/// display, in order.  A single helper invocation takes them all.
pub fn display_placement_args(displays: &Vec<DisplayInfo>) -> (r: Vec<String>)
    ensures
        r@.len() == displays@.len(),
        forall|i: int| 0 <= i < r@.len() ==> r@[i]@ == placement_arg(#[trigger] displays@[i]@),
{
    let mut r: Vec<String> = Vec::new();
    let mut i: usize = 0;
    while i < displays.len()
        invariant
            0 <= i <= displays@.len(),
            r@.len() == i,
            forall|k: int| 0 <= k < i ==> r@[k]@ == placement_arg(#[trigger] displays@[k]@),
        decreases displays@.len() - i,
    {
        r.push(placement_arg_of(&displays[i]));
        i += 1;
    }
    r
}

/// Decides what applying the given audio settings asks of the host: switch
/// the output to the returned device, or nothing when no output device is
/// recorded.  Selecting the input device and setting volumes are not
/// implemented by any supported host, so no action is ever produced for
/// them.
pub fn apply_audio_settings(settings: &AudioSettings) -> (r: Option<String>)
    ensures
        match settings.output_device {
            Some(_) => r is Some && r->Some_0@ == settings@.output_device->Some_0,
            None => r is None,
        },
{
    match &settings.output_device {
        Some(d) => Some(d.clone()),
        None => None,
    }
}

/// Everything that applying one profile asks of the host system, computed
/// before any side effect happens: first place the displays, then switch
/// the audio output.  The two steps are independent; no rollback ties them.
pub struct ApplyPlan {
    /// Placement descriptors, one per display of the profile, in order.
    pub display_args: Vec<String>,
    /// Output device to switch to, if the profile records one.
    pub audio_output: Option<String>,
}

/// What a correct plan for a profile holds.
pub open spec fn plan_matches(plan: &ApplyPlan, p: crate::model::ProfileView) -> bool {
    &&& plan.display_args@.len() == p.displays.len()
    &&& forall|i: int|
        0 <= i < p.displays.len() ==> plan.display_args@[i]@ == placement_arg(
            #[trigger] p.displays[i],
        )
    &&& crate::model::opt_string_view(&plan.audio_output) == p.audio_settings.output_device
}

/// Applying an unknown profile id fails.
#[derive(Clone, Copy, PartialEq, Eq, Structural, Debug)]
pub enum ApplyError {
    /// No record in the store has the requested id.
    NotFound,
}

impl ApplyError {
    /// A human-readable description, as the host shell reports it.
    pub fn message(&self) -> (r: String)
        ensures
            r@ == "profile not found"@,
    {
        String::from_str("profile not found")
    }
}

impl ProfileStore {
    /// Looks the id up and computes the plan for the matching profile.
    ///
    /// Fails with `NotFound` exactly when no record has the id; in that
    /// case there is no plan, so the host spawns no helper process.
    pub fn apply_profile(&self, id: &str) -> (r: Result<ApplyPlan, ApplyError>)
        ensures
            match r {
                Ok(plan) => has_id(self@, id@) && plan_matches(&plan, self@[first_match(
                    self@,
                    id@,
                )]),
                Err(e) => !has_id(self@, id@) && e == ApplyError::NotFound,
            },
    {
        match self.find(id) {
            Some(profile) => {
                let display_args = display_placement_args(&profile.displays);
                let audio_output = apply_audio_settings(&profile.audio_settings);
                Ok(ApplyPlan { display_args, audio_output })
            },
            None => Err(ApplyError::NotFound),
        }
    }
}

/// The synthetic display record used where no enumeration is available
/// (and as the fallback when enumeration reports nothing).
pub fn fallback_display() -> (r: DisplayInfo)
    ensures
        r@.id == 1,
        r@.name == "Primary Display"@,
        r@.width == 1920,
        r@.height == 1080,
        r@.x == 0,
        r@.y == 0,
        r@.scale_milli == 1000,
        r@.is_primary == true,
        r@.rotation == 0,
{
    DisplayInfo {
        id: 1,
        name: String::from_str("Primary Display"),
        width: 1920,
        height: 1080,
        x: 0,
        y: 0,
        scale_milli: 1000,
        is_primary: true,
        rotation: 0,
    }
}

/// A display list is never handed on empty: enumeration that found nothing
/// falls back to the synthetic primary display.
pub fn displays_or_fallback(displays: Vec<DisplayInfo>) -> (r: Vec<DisplayInfo>)
    ensures
        displays@.len() > 0 ==> r@ == displays@,
        displays@.len() == 0 ==> r@.len() == 1 && r@[0]@ == fallback_display_view(),
{
    if displays.len() == 0 {
        let mut r: Vec<DisplayInfo> = Vec::new();
        r.push(fallback_display());
        r
    } else {
        displays
    }
}

/// The view of the synthetic fallback display.
pub open spec fn fallback_display_view() -> DisplayInfoView {
    DisplayInfoView {
        id: 1,
        name: "Primary Display"@,
        width: 1920,
        height: 1080,
        x: 0,
        y: 0,
        scale_milli: 1000,
        is_primary: true,
        rotation: 0,
    }
}

} // verus!
