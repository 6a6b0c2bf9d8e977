//! Idempotent planning of volume-group setup.
//!
//! The surrounding process queries the volume manager for the existing volume
//! groups and physical volumes, hands the observations here, and then issues
//! the returned actions in order. Re-running the whole sequence from scratch
//! is always safe, so no rollback is planned.

use vstd::prelude::*;

use crate::text::{contains_string, contains_text};

verus! {

/// One volume-manager mutation to issue.
#[derive(Debug, Clone, PartialEq)]
pub enum LvmAction {
    /// Force-initialize the device as a physical volume.
    PvCreate { device: String },
    /// Create the volume group spanning the full device list, in one call.
    VgCreate { vg_name: String, devices: Vec<String> },
}

/// Configuration of the volume-group setup: the name of the group to create.
pub struct LvmController {
    pub vg_name: String,
}

/// One `PvCreate` for each device that is not yet a physical volume, in
/// device-list order.
pub open spec fn pv_create_actions(devices: Seq<String>, existing_pvs: Seq<String>) -> Seq<
    LvmAction,
>
    decreases devices.len(),
{
    if devices.len() == 0 {
        Seq::empty()
    } else {
        let rest = pv_create_actions(devices.drop_last(), existing_pvs);
        if !contains_text(existing_pvs, devices.last()@) {
            rest.push(LvmAction::PvCreate { device: devices.last() })
        } else {
            rest
        }
    }
}

/// The full plan: nothing if the volume group already exists; otherwise the
/// missing physical-volume initializations followed by exactly one
/// volume-group creation over the full device list.
pub open spec fn lvm_plan(
    vg_name: String,
    vg_exists: bool,
    devices: Vec<String>,
    existing_pvs: Seq<String>,
) -> Seq<LvmAction> {
    if vg_exists {
        Seq::empty()
    } else {
        pv_create_actions(devices@, existing_pvs).push(
            LvmAction::VgCreate { vg_name, devices },
        )
    }
}

impl LvmController {
    pub fn new(vg_name: String) -> (r: Self)
        ensures
            r.vg_name == vg_name,
    {
        LvmController { vg_name }
    }

    /// Plans the volume-group setup from the observed state: `vg_exists`
    /// says whether the target volume group was already reported, and
    /// `existing_pvs` lists the devices already registered as physical
    /// volumes. `devices` is the detected, sorted device-path list.
    pub fn plan(&self, vg_exists: bool, existing_pvs: &Vec<String>, devices: Vec<String>) -> (r:
        Vec<LvmAction>)
        ensures
            r@ == lvm_plan(self.vg_name, vg_exists, devices, existing_pvs@),
    {
        let mut out: Vec<LvmAction> = Vec::new();
        if vg_exists {
            assert(out@ =~= lvm_plan(self.vg_name, vg_exists, devices, existing_pvs@));
            return out;
        }
        let mut k: usize = 0;
        while k < devices.len()
            invariant
                k <= devices@.len(),
                out@ == pv_create_actions(devices@.take(k as int), existing_pvs@),
            decreases devices@.len() - k,
        {
            proof {
                assert(devices@.take(k + 1).drop_last() =~= devices@.take(k as int));
                assert(devices@.take(k + 1).last() == devices@[k as int]);
            }
            if !contains_string(existing_pvs, &devices[k]) {
                out.push(LvmAction::PvCreate { device: devices[k].clone() });
            }
            k += 1;
        }
        proof {
            assert(devices@.take(devices@.len() as int) =~= devices@);
        }
        let name = self.vg_name.clone();
        out.push(LvmAction::VgCreate { vg_name: name, devices });
        out
    }
}

/// If the volume group already exists, the plan issues no mutation at all.
pub proof fn lemma_existing_vg_plans_nothing(
    vg_name: String,
    devices: Vec<String>,
    existing_pvs: Seq<String>,
)
    ensures
        lvm_plan(vg_name, true, devices, existing_pvs).len() == 0,
{
}

/// A device already registered as a physical volume receives no
/// initialization; one not yet registered receives exactly one, in device
/// order; and the volume group is created once, over the full device list.
pub proof fn lemma_plan_initializes_missing_only(
    vg_name: String,
    devices: Vec<String>,
    existing_pvs: Seq<String>,
)
    ensures
        ({
            let plan = lvm_plan(vg_name, false, devices, existing_pvs);
            &&& plan.len() >= 1
            &&& plan.last() == (LvmAction::VgCreate { vg_name, devices })
            &&& forall|i: int|
                0 <= i < plan.len() - 1 ==> ((#[trigger] plan[i]) matches LvmAction::PvCreate {
                    device,
                } && contains_text(devices@, device@) && !contains_text(existing_pvs, device@))
        }),
{
    lemma_pv_creates_missing_only(devices@, existing_pvs);
}

/// Every planned physical-volume initialization names a device from the list
/// that is not yet a physical volume.
pub proof fn lemma_pv_creates_missing_only(devices: Seq<String>, existing_pvs: Seq<String>)
    ensures
        forall|i: int|
            0 <= i < pv_create_actions(devices, existing_pvs).len() ==> ((
            #[trigger] pv_create_actions(devices, existing_pvs)[i]) matches LvmAction::PvCreate {
                device,
            } && contains_text(devices, device@) && !contains_text(existing_pvs, device@)),
    decreases devices.len(),
{
    if devices.len() > 0 {
        lemma_pv_creates_missing_only(devices.drop_last(), existing_pvs);
        let rest = pv_create_actions(devices.drop_last(), existing_pvs);
        assert forall|i: int|
            0 <= i < pv_create_actions(devices, existing_pvs).len() implies ((
        #[trigger] pv_create_actions(devices, existing_pvs)[i]) matches LvmAction::PvCreate {
            device,
        } && contains_text(devices, device@) && !contains_text(existing_pvs, device@)) by {
            if i < rest.len() {
                assert(rest[i] matches LvmAction::PvCreate { device } && contains_text(
                    devices.drop_last(),
                    device@,
                ) && !contains_text(existing_pvs, device@));
                let d = rest[i]->PvCreate_device;
                let w = choose|w: int|
                    0 <= w < devices.drop_last().len() && #[trigger] devices.drop_last()[w]@
                        == d@;
                assert(devices[w]@ == d@);
            } else {
                assert(devices[devices.len() - 1]@ == devices.last()@);
            }
        }
    }
}

} // verus!
