use ephemeral_storage_setup::swap::{
    is_existing_swap, parse_swap_table, tunable_key, SwapAction, SwapController, Tunable,
};

fn owned(items: &[&str]) -> Vec<String> {
    items.iter().map(|s| (*s).to_owned()).collect()
}

#[test]
fn swap_table_first_columns() {
    let content = "Filename\t\t\t\tType\t\tSize\t\tUsed\t\tPriority\n\
                   /nvme0n1                                partition\t393215996\t0\t\t-2\n\
                   /dev/nvme1n1 partition 393215996 0 -3\n";
    let entries = parse_swap_table(content);
    assert_eq!(owned(&["/nvme0n1", "/dev/nvme1n1"]), entries);
}

#[test]
fn empty_swap_table_has_no_entries() {
    assert!(parse_swap_table("").is_empty());
    assert!(parse_swap_table("Filename\tType\n").is_empty());
}

#[test]
fn suffix_match_absorbs_missing_prefix() {
    let entries = owned(&["/nvme0n1"]);
    assert!(is_existing_swap(&entries, "/dev/nvme0n1"));
    assert!(is_existing_swap(&entries, "/nvme0n1"));
    assert!(!is_existing_swap(&entries, "/dev/nvme10n1"));
}

#[test]
fn suffix_match_spans_multi_segment_remap_prefix() {
    let entries = owned(&["/dev/nvme0n1"]);
    assert!(is_existing_swap(&entries, "/.bottlerocket/rootfs/dev/nvme0n1"));
}

#[test]
fn plan_skips_active_devices_and_applies_tunables() {
    let controller = SwapController {
        vm_swappiness: 100,
        vm_min_free_kbytes: 1048576,
        vm_watermark_scale_factor: 100,
    };
    let entries = owned(&["/nvme0n1"]);
    let devices = owned(&["/dev/nvme0n1", "/dev/nvme1n1"]);
    let plan = controller.plan(&entries, &devices);
    assert_eq!(
        vec![
            SwapAction::Mkswap { device: "/dev/nvme1n1".to_owned() },
            SwapAction::Swapon { device: "/dev/nvme1n1".to_owned() },
            SwapAction::Sysctl { tunable: Tunable::Swappiness, value: 100 },
            SwapAction::Sysctl { tunable: Tunable::MinFreeKbytes, value: 1048576 },
            SwapAction::Sysctl { tunable: Tunable::WatermarkScaleFactor, value: 100 },
        ],
        plan
    );
}

#[test]
fn tunables_are_applied_even_when_all_devices_are_active() {
    let controller = SwapController {
        vm_swappiness: 60,
        vm_min_free_kbytes: 65536,
        vm_watermark_scale_factor: 10,
    };
    let entries = owned(&["/dev/nvme0n1"]);
    let devices = owned(&["/dev/nvme0n1"]);
    let plan = controller.plan(&entries, &devices);
    assert_eq!(
        vec![
            SwapAction::Sysctl { tunable: Tunable::Swappiness, value: 60 },
            SwapAction::Sysctl { tunable: Tunable::MinFreeKbytes, value: 65536 },
            SwapAction::Sysctl { tunable: Tunable::WatermarkScaleFactor, value: 10 },
        ],
        plan
    );
}

#[test]
fn tunable_keys_are_the_dotted_sysctl_names() {
    assert_eq!("vm.swappiness", tunable_key(&Tunable::Swappiness));
    assert_eq!("vm.min_free_kbytes", tunable_key(&Tunable::MinFreeKbytes));
    assert_eq!("vm.watermark_scale_factor", tunable_key(&Tunable::WatermarkScaleFactor));
}
