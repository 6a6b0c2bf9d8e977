//! Cloud-specific detection of local ephemeral NVMe devices.
//!
//! The block-device inventory probe and the device-alias search run outside
//! the library; their parsed results come in as [`BlockDevice`] records and
//! resolved alias paths. Every detector returns a sorted, deduplicated list
//! of device paths, and detection fails when that list would be empty.

use vstd::prelude::*;

use crate::text::{
    contains_string, contains_substr, contains_text, has_substr, prefix_all, sort_dedup, str_eq,
    strictly_sorted,
};
use crate::{CloudProvider, SetupError};

verus! {

/// One record of the block-device inventory, as the inventory probe reports
/// it: a device node path, free-text model, current mount point, transport,
/// device type, and nested child devices such as partitions.
#[derive(Debug, PartialEq)]
pub struct BlockDevice {
    pub path: String,
    pub model: Option<String>,
    pub mountpoint: Option<String>,
    pub tran: Option<String>,
    pub device_type: String,
    pub children: Option<Vec<BlockDevice>>,
}

/// A record is an eligible candidate iff it is an unmounted NVMe disk with no
/// children: transport "nvme", type "disk", no mount point, and an absent or
/// empty child list.
pub open spec fn eligible(d: BlockDevice) -> bool {
    &&& d.mountpoint is None
    &&& match d.children {
        Some(c) => c@.len() == 0,
        None => true,
    }
    &&& match d.tran {
        Some(t) => t@ == "nvme"@,
        None => false,
    }
    &&& d.device_type@ == "disk"@
}

/// The record's model string contains `needle`.
pub open spec fn model_matches(d: BlockDevice, needle: Seq<char>) -> bool {
    match d.model {
        Some(m) => has_substr(m@, needle),
        None => false,
    }
}

/// The record at index `i` survives the inventory filter: it is eligible and,
/// when a model filter applies, its model contains the filter string.
pub open spec fn device_selected(
    inv: Seq<BlockDevice>,
    needle: Option<Seq<char>>,
    i: int,
) -> bool {
    &&& 0 <= i < inv.len()
    &&& eligible(inv[i])
    &&& match needle {
        Some(n) => model_matches(inv[i], n),
        None => true,
    }
}

/// Some surviving record has path `p`.
pub open spec fn selected_path(
    inv: Seq<BlockDevice>,
    needle: Option<Seq<char>>,
    p: Seq<char>,
) -> bool {
    exists|i: int| #[trigger] device_selected(inv, needle, i) && inv[i].path@ == p
}

/// A record with a mount point, a non-empty child list, a non-"nvme"
/// transport (or none), or a non-"disk" type never survives the filter,
/// whatever the model filter is.
pub proof fn lemma_ineligible_never_selected(
    inv: Seq<BlockDevice>,
    needle: Option<Seq<char>>,
    i: int,
)
    requires
        0 <= i < inv.len(),
        inv[i].mountpoint is Some || (inv[i].children matches Some(c) && c@.len() > 0) || !(
        inv[i].tran matches Some(t) && t@ == "nvme"@) || inv[i].device_type@ != "disk"@,
    ensures
        !device_selected(inv, needle, i),
{
}

/// Whether a record is an eligible candidate.
pub fn is_eligible(d: &BlockDevice) -> (r: bool)
    ensures
        r == eligible(*d),
{
    if d.mountpoint.is_some() {
        return false;
    }
    match &d.children {
        Some(c) => {
            if c.len() > 0 {
                return false;
            }
        },
        None => {},
    }
    match &d.tran {
        Some(t) => {
            if !str_eq(t.as_str(), "nvme") {
                return false;
            }
        },
        None => {
            return false;
        },
    }
    str_eq(d.device_type.as_str(), "disk")
}

/// Paths of the records surviving the filter, in inventory order.
fn collect_paths(inventory: &Vec<BlockDevice>, model_filter: Option<&str>) -> (r: Vec<String>)
    ensures
        forall|t: Seq<char>| #[trigger]
            contains_text(r@, t) <==> selected_path(
                inventory@,
                match model_filter {
                    Some(f) => Some(f@),
                    None => None,
                },
                t,
            ),
{
    let ghost needle: Option<Seq<char>> = match model_filter {
        Some(f) => Some(f@),
        None => None,
    };
    let mut out: Vec<String> = Vec::new();
    let mut k: usize = 0;
    while k < inventory.len()
        invariant
            k <= inventory@.len(),
            needle == (match model_filter {
                Some(f) => Some(f@),
                None => None::<Seq<char>>,
            }),
            forall|t: Seq<char>| #[trigger]
                contains_text(out@, t) <==> selected_path(inventory@.take(k as int), needle, t),
        decreases inventory@.len() - k,
    {
        let d = &inventory[k];
        let keep: bool = if is_eligible(d) {
            match model_filter {
                Some(f) => {
                    match &d.model {
                        Some(m) => contains_substr(m.as_str(), f),
                        None => false,
                    }
                },
                None => true,
            }
        } else {
            false
        };
        let ghost before = out@;
        if keep {
            out.push(d.path.clone());
        }
        proof {
            assert(keep == device_selected(inventory@, needle, k as int));
            assert forall|t: Seq<char>| #[trigger]
                contains_text(out@, t) <==> selected_path(
                    inventory@.take(k + 1),
                    needle,
                    t,
                ) by {
                if contains_text(out@, t) {
                    let i = choose|i: int| 0 <= i < out@.len() && #[trigger] out@[i]@ == t;
                    if i < before.len() {
                        assert(contains_text(before, t));
                        let w = choose|w: int| #[trigger]
                            device_selected(inventory@.take(k as int), needle, w)
                                && inventory@.take(k as int)[w].path@ == t;
                        assert(device_selected(inventory@.take(k + 1), needle, w));
                        assert(inventory@.take(k + 1)[w].path@ == t);
                    } else {
                        assert(keep && out@[i] == inventory@[k as int].path);
                        assert(device_selected(inventory@.take(k + 1), needle, k as int));
                        assert(inventory@.take(k + 1)[k as int].path@ == t);
                    }
                }
                if selected_path(inventory@.take(k + 1), needle, t) {
                    let w = choose|w: int| #[trigger]
                        device_selected(inventory@.take(k + 1), needle, w) && inventory@.take(
                            k + 1,
                        )[w].path@ == t;
                    if w < k {
                        assert(device_selected(inventory@.take(k as int), needle, w));
                        assert(inventory@.take(k as int)[w].path@ == t);
                        assert(contains_text(before, t));
                        let i = choose|i: int| 0 <= i < before.len() && #[trigger] before[i]@
                            == t;
                        assert(out@[i]@ == t);
                    } else {
                        assert(keep);
                        assert(out@[out@.len() - 1]@ == t);
                    }
                }
            }
        }
        k += 1;
    }
    proof {
        assert(inventory@.take(inventory@.len() as int) =~= inventory@);
    }
    out
}

/// Detects ephemeral NVMe devices for one cloud provider. The surrounding
/// process feeds it the parsed inventory and, for providers that need it, the
/// resolved device-alias paths; `bottlerocket` says whether the fixed
/// root-remap sentinel directory was found.
pub struct DiskDetector {
    pub cloud_provider: CloudProvider,
    pub bottlerocket: bool,
}

/// The path `t` belongs to the detection result for this detector
/// configuration, inventory, and alias-derived path set.
pub open spec fn provider_selected(
    detector: DiskDetector,
    inv: Seq<BlockDevice>,
    aliases: Seq<String>,
    t: Seq<char>,
) -> bool {
    match detector.cloud_provider {
        CloudProvider::Aws => {
            if detector.bottlerocket {
                exists|p: Seq<char>|
                    #[trigger] selected_path(inv, Some("Amazon EC2 NVMe Instance Storage"@), p)
                        && t == "/.bottlerocket/rootfs"@ + p
            } else {
                selected_path(inv, Some("Amazon EC2 NVMe Instance Storage"@), t)
            }
        },
        CloudProvider::Gcp => selected_path(inv, None, t) && contains_text(aliases, t),
        CloudProvider::Azure => selected_path(inv, Some("Microsoft NVMe Direct Disk"@), t),
        CloudProvider::Generic => selected_path(inv, None, t),
    }
}

/// Detection capability: one implementation per provider family, selected by
/// the detector's configuration.
pub trait DiskDetectorTrait {
    /// Sorted, deduplicated device paths; an empty result is the fatal
    /// detection-empty condition.
    fn detect_devices(&self, inventory: &Vec<BlockDevice>, resolved_aliases: &Vec<String>) -> (r:
        Result<Vec<String>, SetupError>)
        ensures
            r matches Ok(v) ==> strictly_sorted(v@) && v@.len() > 0,
            r matches Err(e) ==> e == SetupError::DetectionEmpty,
    ;
}

impl DiskDetectorTrait for DiskDetector {
    fn detect_devices(&self, inventory: &Vec<BlockDevice>, resolved_aliases: &Vec<String>) -> (r:
        Result<Vec<String>, SetupError>) {
        self.detect(inventory, resolved_aliases)
    }
}

impl DiskDetector {
    pub fn new(cloud_provider: CloudProvider, bottlerocket: bool) -> (r: Self)
        ensures
            r.cloud_provider == cloud_provider,
            r.bottlerocket == bottlerocket,
    {
        DiskDetector { cloud_provider, bottlerocket }
    }

    /// Runs the provider-specific detection and rejects an empty result.
    pub fn detect(&self, inventory: &Vec<BlockDevice>, resolved_aliases: &Vec<String>) -> (r:
        Result<Vec<String>, SetupError>)
        ensures
            r matches Ok(v) ==> strictly_sorted(v@) && v@.len() > 0 && forall|t: Seq<char>|
                #[trigger] contains_text(v@, t) <==> provider_selected(
                    *self,
                    inventory@,
                    resolved_aliases@,
                    t,
                ),
            r matches Err(e) ==> e == SetupError::DetectionEmpty && forall|t: Seq<char>|
                !provider_selected(*self, inventory@, resolved_aliases@, t),
    {
        let devices = match self.cloud_provider {
            CloudProvider::Aws => {
                if self.bottlerocket {
                    self.detect_aws_bottlerocket_devices(inventory)
                } else {
                    self.detect_aws_standard_devices(inventory)
                }
            },
            CloudProvider::Gcp => self.detect_gcp_devices(inventory, resolved_aliases),
            CloudProvider::Azure => self.detect_azure_devices(inventory),
            CloudProvider::Generic => self.detect_generic_devices(inventory),
        };
        if devices.is_empty() {
            proof {
                assert forall|t: Seq<char>| !provider_selected(
                    *self,
                    inventory@,
                    resolved_aliases@,
                    t,
                ) by {
                    assert(!contains_text(devices@, t));
                }
            }
            Err(SetupError::DetectionEmpty)
        } else {
            Ok(devices)
        }
    }

    /// Eligible devices whose model names Amazon EC2 instance storage.
    pub fn detect_aws_standard_devices(&self, inventory: &Vec<BlockDevice>) -> (r: Vec<String>)
        ensures
            strictly_sorted(r@),
            forall|t: Seq<char>| #[trigger]
                contains_text(r@, t) <==> selected_path(
                    inventory@,
                    Some("Amazon EC2 NVMe Instance Storage"@),
                    t,
                ),
    {
        let paths = collect_paths(inventory, Some("Amazon EC2 NVMe Instance Storage"));
        sort_dedup(&paths)
    }

    /// As the standard AWS detection, with every path readdressed under the
    /// fixed root-remap directory.
    pub fn detect_aws_bottlerocket_devices(&self, inventory: &Vec<BlockDevice>) -> (r: Vec<
        String,
    >)
        ensures
            strictly_sorted(r@),
            forall|t: Seq<char>| #[trigger]
                contains_text(r@, t) <==> exists|p: Seq<char>|
                    #[trigger] selected_path(
                        inventory@,
                        Some("Amazon EC2 NVMe Instance Storage"@),
                        p,
                    ) && t == "/.bottlerocket/rootfs"@ + p,
    {
        let paths = collect_paths(inventory, Some("Amazon EC2 NVMe Instance Storage"));
        let prefixed = prefix_all("/.bottlerocket/rootfs", &paths);
        proof {
            assert forall|t: Seq<char>| #[trigger]
                contains_text(prefixed@, t) <==> exists|p: Seq<char>|
                    #[trigger] contains_text(paths@, p) && t == "/.bottlerocket/rootfs"@
                        + p by {
                if contains_text(prefixed@, t) {
                    let i = choose|i: int| 0 <= i < prefixed@.len() && #[trigger] prefixed@[i]@
                        == t;
                    assert(contains_text(paths@, paths@[i]@));
                }
                if exists|p: Seq<char>| #[trigger] contains_text(paths@, p) && t
                    == "/.bottlerocket/rootfs"@ + p {
                    let p = choose|p: Seq<char>| #[trigger]
                        contains_text(paths@, p) && t == "/.bottlerocket/rootfs"@ + p;
                    let i = choose|i: int| 0 <= i < paths@.len() && #[trigger] paths@[i]@ == p;
                    assert(prefixed@[i]@ == t);
                }
            }
        }
        let result = sort_dedup(&prefixed);
        proof {
            assert forall|t: Seq<char>| #[trigger]
                contains_text(result@, t) <==> exists|p: Seq<char>|
                    #[trigger] selected_path(
                        inventory@,
                        Some("Amazon EC2 NVMe Instance Storage"@),
                        p,
                    ) && t == "/.bottlerocket/rootfs"@ + p by {
                if contains_text(result@, t) {
                    let p = choose|p: Seq<char>| #[trigger]
                        contains_text(paths@, p) && t == "/.bottlerocket/rootfs"@ + p;
                    assert(selected_path(
                        inventory@,
                        Some("Amazon EC2 NVMe Instance Storage"@),
                        p,
                    ) && t == "/.bottlerocket/rootfs"@ + p);
                }
                if exists|p: Seq<char>|
                    #[trigger] selected_path(
                        inventory@,
                        Some("Amazon EC2 NVMe Instance Storage"@),
                        p,
                    ) && t == "/.bottlerocket/rootfs"@ + p {
                    let p = choose|p: Seq<char>|
                        #[trigger] selected_path(
                            inventory@,
                            Some("Amazon EC2 NVMe Instance Storage"@),
                            p,
                        ) && t == "/.bottlerocket/rootfs"@ + p;
                    assert(contains_text(paths@, p));
                    assert(contains_text(prefixed@, t));
                }
            }
        }
        result
    }

    /// Eligible inventory paths that the alias search confirmed: the model
    /// field is not trustworthy here, so the result is the intersection of
    /// the eligible inventory paths and the alias-resolved paths.
    pub fn detect_gcp_devices(
        &self,
        inventory: &Vec<BlockDevice>,
        resolved_aliases: &Vec<String>,
    ) -> (r: Vec<String>)
        ensures
            strictly_sorted(r@),
            forall|t: Seq<char>| #[trigger]
                contains_text(r@, t) <==> selected_path(inventory@, None, t) && contains_text(
                    resolved_aliases@,
                    t,
                ),
    {
        let paths = collect_paths(inventory, None);
        let mut confirmed: Vec<String> = Vec::new();
        let mut k: usize = 0;
        while k < paths.len()
            invariant
                k <= paths@.len(),
                forall|t: Seq<char>| #[trigger]
                    contains_text(confirmed@, t) <==> contains_text(paths@.take(k as int), t)
                        && contains_text(resolved_aliases@, t),
            decreases paths@.len() - k,
        {
            let ghost before = confirmed@;
            if contains_string(resolved_aliases, &paths[k]) {
                confirmed.push(paths[k].clone());
            }
            proof {
                assert forall|t: Seq<char>| #[trigger]
                    contains_text(confirmed@, t) <==> contains_text(paths@.take(k + 1), t)
                        && contains_text(resolved_aliases@, t) by {
                    if contains_text(confirmed@, t) {
                        let i = choose|i: int|
                            0 <= i < confirmed@.len() && #[trigger] confirmed@[i]@ == t;
                        if i < before.len() {
                            assert(contains_text(before, t));
                            let j = choose|j: int|
                                0 <= j < paths@.take(k as int).len() && #[trigger] paths@.take(
                                    k as int,
                                )[j]@ == t;
                            assert(paths@.take(k + 1)[j]@ == t);
                        } else {
                            assert(paths@.take(k + 1)[k as int]@ == t);
                        }
                    }
                    if contains_text(paths@.take(k + 1), t) && contains_text(
                        resolved_aliases@,
                        t,
                    ) {
                        let j = choose|j: int|
                            0 <= j < paths@.take(k + 1).len() && #[trigger] paths@.take(
                                k + 1,
                            )[j]@ == t;
                        if j < k {
                            assert(paths@.take(k as int)[j]@ == t);
                            assert(contains_text(before, t));
                            let i = choose|i: int|
                                0 <= i < before.len() && #[trigger] before[i]@ == t;
                            assert(confirmed@[i]@ == t);
                        } else {
                            assert(confirmed@[confirmed@.len() - 1]@ == t);
                        }
                    }
                }
            }
            k += 1;
        }
        proof {
            assert(paths@.take(paths@.len() as int) =~= paths@);
        }
        sort_dedup(&confirmed)
    }

    /// Eligible devices whose model names a Microsoft NVMe direct disk.
    pub fn detect_azure_devices(&self, inventory: &Vec<BlockDevice>) -> (r: Vec<String>)
        ensures
            strictly_sorted(r@),
            forall|t: Seq<char>| #[trigger]
                contains_text(r@, t) <==> selected_path(
                    inventory@,
                    Some("Microsoft NVMe Direct Disk"@),
                    t,
                ),
    {
        let paths = collect_paths(inventory, Some("Microsoft NVMe Direct Disk"));
        sort_dedup(&paths)
    }

    /// Every eligible device, with no model filter.
    pub fn detect_generic_devices(&self, inventory: &Vec<BlockDevice>) -> (r: Vec<String>)
        ensures
            strictly_sorted(r@),
            forall|t: Seq<char>| #[trigger]
                contains_text(r@, t) <==> selected_path(inventory@, None, t),
    {
        let paths = collect_paths(inventory, None);
        sort_dedup(&paths)
    }
}

/// Paths of all eligible devices, sorted and deduplicated: the shared
/// inventory scan with no model filter.
pub fn eligible_paths(inventory: &Vec<BlockDevice>) -> (r: Vec<String>)
    ensures
        strictly_sorted(r@),
        forall|t: Seq<char>| #[trigger]
            contains_text(r@, t) <==> selected_path(inventory@, None, t),
{
    let paths = collect_paths(inventory, None);
    sort_dedup(&paths)
}

/// Alias-search output lines that name whole disks: any line containing
/// "-part" names a partition alias and is dropped; the others are kept in
/// order.
pub fn alias_disk_lines(lines: &Vec<String>) -> (r: Vec<String>)
    ensures
        r@ == kept_alias_lines(lines@),
{
    let mut out: Vec<String> = Vec::new();
    let mut k: usize = 0;
    while k < lines.len()
        invariant
            k <= lines@.len(),
            out@ == kept_alias_lines(lines@.take(k as int)),
        decreases lines@.len() - k,
    {
        proof {
            assert(lines@.take(k + 1).drop_last() =~= lines@.take(k as int));
            assert(lines@.take(k + 1).last() == lines@[k as int]);
        }
        if !contains_substr(lines[k].as_str(), "-part") {
            out.push(lines[k].clone());
        }
        k += 1;
    }
    proof {
        assert(lines@.take(lines@.len() as int) =~= lines@);
    }
    out
}

/// The alias lines kept by [`alias_disk_lines`]: those without "-part".
pub open spec fn kept_alias_lines(lines: Seq<String>) -> Seq<String>
    decreases lines.len(),
{
    if lines.len() == 0 {
        Seq::empty()
    } else {
        let rest = kept_alias_lines(lines.drop_last());
        if !has_substr(lines.last()@, "-part"@) {
            rest.push(lines.last())
        } else {
            rest
        }
    }
}

/// No kept alias line contains "-part".
pub proof fn lemma_alias_lines_exclude_partitions(lines: Seq<String>, i: int)
    requires
        0 <= i < kept_alias_lines(lines).len(),
    ensures
        !has_substr(kept_alias_lines(lines)[i]@, "-part"@),
    decreases lines.len(),
{
    if lines.len() > 0 {
        let rest = kept_alias_lines(lines.drop_last());
        if i < rest.len() {
            lemma_alias_lines_exclude_partitions(lines.drop_last(), i);
        }
    }
}

} // verus!
