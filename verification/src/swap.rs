//! Idempotent planning of swap setup.
//!
//! The surrounding process reads the live swap-area table, hands its text and
//! the detected devices here, and then issues the returned actions in order.
//! A device already active as swap is left alone; every run ends by applying
//! the three memory-management tunables.

use vstd::prelude::*;

use crate::text::{
    ends_with_str, first_tokens, is_suffix_of, join_nl, parse_columns, split_lines, views_of,
};

verus! {

/// Memory-management tunables applied after swap activation.
#[derive(Clone, Copy, Debug, PartialEq, Eq, Structural)]
pub enum Tunable {
    /// Weight of application data against filesystem cache when swapping.
    Swappiness,
    /// Minimum amount of RAM, in kibibytes, kept actually free.
    MinFreeKbytes,
    /// Aggressiveness of early background swapping.
    WatermarkScaleFactor,
}

/// One swap-setup command to issue.
#[derive(Debug, Clone, PartialEq)]
pub enum SwapAction {
    /// Format the device as a swap area.
    Mkswap { device: String },
    /// Activate swap on the device.
    Swapon { device: String },
    /// Write one tunable value.
    Sysctl { tunable: Tunable, value: usize },
}

/// Configuration of the swap setup: the three tunable values.
pub struct SwapController {
    pub vm_swappiness: usize,
    pub vm_min_free_kbytes: usize,
    pub vm_watermark_scale_factor: usize,
}

/// The dotted key under which a tunable is written.
pub open spec fn tunable_key_text(t: Tunable) -> Seq<char> {
    match t {
        Tunable::Swappiness => "vm.swappiness"@,
        Tunable::MinFreeKbytes => "vm.min_free_kbytes"@,
        Tunable::WatermarkScaleFactor => "vm.watermark_scale_factor"@,
    }
}

/// The dotted key under which a tunable is written.
pub fn tunable_key(t: &Tunable) -> (r: String)
    ensures
        r@ == tunable_key_text(*t),
{
    match t {
        Tunable::Swappiness => "vm.swappiness".to_owned(),
        Tunable::MinFreeKbytes => "vm.min_free_kbytes".to_owned(),
        Tunable::WatermarkScaleFactor => "vm.watermark_scale_factor".to_owned(),
    }
}

/// A device counts as an active swap area when some live table entry is a
/// suffix of its full path: the table is inconsistent about a leading path
/// prefix, so suffix match absorbs that.
pub open spec fn swap_active(entries: Seq<String>, device: Seq<char>) -> bool {
    exists|i: int| 0 <= i < entries.len() && is_suffix_of(#[trigger] entries[i]@, device)
}

/// Whether the live swap table already lists the device.
pub fn is_existing_swap(entries: &Vec<String>, device: &str) -> (r: bool)
    ensures
        r == swap_active(entries@, device@),
{
    let mut k: usize = 0;
    while k < entries.len()
        invariant
            k <= entries@.len(),
            forall|i: int| 0 <= i < k ==> !is_suffix_of(#[trigger] entries@[i]@, device@),
        decreases entries@.len() - k,
    {
        if ends_with_str(device, entries[k].as_str()) {
            return true;
        }
        k += 1;
    }
    false
}

/// Format-and-activate pairs for each device not already active, in device
/// order.
pub open spec fn swap_device_actions(entries: Seq<String>, devices: Seq<String>) -> Seq<
    SwapAction,
>
    decreases devices.len(),
{
    if devices.len() == 0 {
        Seq::empty()
    } else {
        let rest = swap_device_actions(entries, devices.drop_last());
        if !swap_active(entries, devices.last()@) {
            rest + seq![
                SwapAction::Mkswap { device: devices.last() },
                SwapAction::Swapon { device: devices.last() },
            ]
        } else {
            rest
        }
    }
}

/// The full plan: the per-device actions, then unconditionally the three
/// tunable writes.
pub open spec fn swap_plan(
    controller: SwapController,
    entries: Seq<String>,
    devices: Seq<String>,
) -> Seq<SwapAction> {
    swap_device_actions(entries, devices) + seq![
        SwapAction::Sysctl { tunable: Tunable::Swappiness, value: controller.vm_swappiness },
        SwapAction::Sysctl {
            tunable: Tunable::MinFreeKbytes,
            value: controller.vm_min_free_kbytes,
        },
        SwapAction::Sysctl {
            tunable: Tunable::WatermarkScaleFactor,
            value: controller.vm_watermark_scale_factor,
        },
    ]
}

impl SwapController {
    /// Plans the swap setup from the live swap-table entries and the
    /// detected, sorted device-path list.
    pub fn plan(&self, swap_entries: &Vec<String>, devices: &Vec<String>) -> (r: Vec<SwapAction>)
        ensures
            r@ == swap_plan(*self, swap_entries@, devices@),
    {
        let mut out: Vec<SwapAction> = Vec::new();
        let mut k: usize = 0;
        while k < devices.len()
            invariant
                k <= devices@.len(),
                out@ == swap_device_actions(swap_entries@, devices@.take(k as int)),
            decreases devices@.len() - k,
        {
            proof {
                assert(devices@.take(k + 1).drop_last() =~= devices@.take(k as int));
                assert(devices@.take(k + 1).last() == devices@[k as int]);
            }
            if !is_existing_swap(swap_entries, devices[k].as_str()) {
                out.push(SwapAction::Mkswap { device: devices[k].clone() });
                out.push(SwapAction::Swapon { device: devices[k].clone() });
                proof {
                    assert(out@ =~= swap_device_actions(swap_entries@, devices@.take(k + 1)));
                }
            }
            k += 1;
        }
        proof {
            assert(devices@.take(devices@.len() as int) =~= devices@);
        }
        out.push(SwapAction::Sysctl { tunable: Tunable::Swappiness, value: self.vm_swappiness });
        out.push(
            SwapAction::Sysctl {
                tunable: Tunable::MinFreeKbytes,
                value: self.vm_min_free_kbytes,
            },
        );
        out.push(
            SwapAction::Sysctl {
                tunable: Tunable::WatermarkScaleFactor,
                value: self.vm_watermark_scale_factor,
            },
        );
        proof {
            assert(out@ =~= swap_plan(*self, swap_entries@, devices@));
        }
        out
    }
}

/// First columns of the live swap-area table: the first whitespace-separated
/// token of every line after the header line.
pub fn parse_swap_table(content: &str) -> (r: Vec<String>)
    ensures
        exists|lines: Seq<String>|
            {
                &&& #[trigger] join_nl(views_of(lines)) == content@
                &&& forall|i: int| 0 <= i < lines.len() ==> !(#[trigger] lines[i]@).contains('\n')
                &&& views_of(r@) == first_tokens(lines.skip(1))
            },
{
    let lines = split_lines(content);
    let r = parse_columns(&lines);
    proof {
        assert(join_nl(views_of(lines@)) == content@ && (forall|i: int|
            0 <= i < lines@.len() ==> !(#[trigger] lines@[i]@).contains('\n')) && views_of(r@)
            == first_tokens(lines@.skip(1)));
    }
    r
}

} // verus!
