use ephemeral_storage_setup::detect::{BlockDevice, DiskDetector};
use ephemeral_storage_setup::lvm::{LvmAction, LvmController};
use ephemeral_storage_setup::CloudProvider;

fn owned(items: &[&str]) -> Vec<String> {
    items.iter().map(|s| (*s).to_owned()).collect()
}

#[test]
fn existing_volume_group_plans_no_mutation() {
    let controller = LvmController::new("instance-store-vg".to_owned());
    let plan = controller.plan(true, &owned(&["/dev/nvme1n1"]), owned(&["/dev/nvme1n1", "/dev/nvme2n1"]));
    assert!(plan.is_empty());
}

#[test]
fn only_missing_devices_are_initialized() {
    let controller = LvmController::new("instance-store-vg".to_owned());
    let devices = owned(&["/dev/nvme0n1", "/dev/nvme1n1", "/dev/nvme2n1"]);
    let existing_pvs = owned(&["/dev/nvme1n1", "/dev/sdb"]);
    let plan = controller.plan(false, &existing_pvs, devices.clone());
    assert_eq!(
        vec![
            LvmAction::PvCreate { device: "/dev/nvme0n1".to_owned() },
            LvmAction::PvCreate { device: "/dev/nvme2n1".to_owned() },
            LvmAction::VgCreate { vg_name: "instance-store-vg".to_owned(), devices },
        ],
        plan
    );
}

#[test]
fn fresh_node_initializes_every_device() {
    let controller = LvmController::new("vg0".to_owned());
    let devices = owned(&["/dev/nvme0n1", "/dev/nvme1n1"]);
    let plan = controller.plan(false, &owned(&[]), devices.clone());
    assert_eq!(
        vec![
            LvmAction::PvCreate { device: "/dev/nvme0n1".to_owned() },
            LvmAction::PvCreate { device: "/dev/nvme1n1".to_owned() },
            LvmAction::VgCreate { vg_name: "vg0".to_owned(), devices },
        ],
        plan
    );
}

fn device(path: &str, model: &str) -> BlockDevice {
    BlockDevice {
        path: path.to_owned(),
        model: Some(model.to_owned()),
        mountpoint: None,
        tran: Some("nvme".to_owned()),
        device_type: "disk".to_owned(),
        children: None,
    }
}

#[test]
fn aws_detection_feeds_volume_group_creation() {
    let inventory = vec![
        device("/dev/nvme2n1", "Amazon EC2 NVMe Instance Storage"),
        device("/dev/nvme1n1", "Amazon EC2 NVMe Instance Storage"),
        device("/dev/nvme3n1", "some other model"),
    ];
    let detector = DiskDetector::new(CloudProvider::Aws, false);
    let devices = detector.detect(&inventory, &vec![]).unwrap();
    assert_eq!(owned(&["/dev/nvme1n1", "/dev/nvme2n1"]), devices);

    let controller = LvmController::new("instance-store-vg".to_owned());
    let plan = controller.plan(false, &owned(&[]), devices);
    assert_eq!(
        vec![
            LvmAction::PvCreate { device: "/dev/nvme1n1".to_owned() },
            LvmAction::PvCreate { device: "/dev/nvme2n1".to_owned() },
            LvmAction::VgCreate {
                vg_name: "instance-store-vg".to_owned(),
                devices: owned(&["/dev/nvme1n1", "/dev/nvme2n1"]),
            },
        ],
        plan
    );
}
