use ephemeral_storage_setup::detect::{is_eligible, BlockDevice, DiskDetector};
use ephemeral_storage_setup::detect::{alias_disk_lines, eligible_paths};
use ephemeral_storage_setup::{CloudProvider, SetupError};

fn device(
    path: &str,
    model: Option<&str>,
    mountpoint: Option<&str>,
    tran: Option<&str>,
    device_type: &str,
    children: Option<Vec<BlockDevice>>,
) -> BlockDevice {
    BlockDevice {
        path: path.to_owned(),
        model: model.map(|m| m.to_owned()),
        mountpoint: mountpoint.map(|m| m.to_owned()),
        tran: tran.map(|t| t.to_owned()),
        device_type: device_type.to_owned(),
        children,
    }
}

/// The varied inventory: six eligible NVMe disks with differing models, plus
/// records that the eligibility filter must drop.
fn contrived_inventory() -> Vec<BlockDevice> {
    vec![
        device(
            "/dev/nvme0n1",
            Some("Amazon EC2 NVMe Instance Storage"),
            None,
            Some("nvme"),
            "disk",
            Some(vec![]),
        ),
        device(
            "/dev/nvme1n1",
            Some("Amazon EC2 NVMe Instance Storage"),
            None,
            Some("nvme"),
            "disk",
            Some(vec![]),
        ),
        device(
            "/dev/nvme2n1",
            Some("some other model"),
            None,
            Some("nvme"),
            "disk",
            Some(vec![]),
        ),
        device(
            "/dev/nvme7n1",
            Some("Amazon EC2 NVMe Instance Storage"),
            None,
            Some("nvme"),
            "disk",
            None,
        ),
        device(
            "/dev/nvme8n1",
            Some("Microsoft NVMe Direct Disk v49990322"),
            None,
            Some("nvme"),
            "disk",
            None,
        ),
        device("/dev/nvme9n1", Some("nvme_card"), None, Some("nvme"), "disk", None),
        // Dropped by the filter: mounted, partitioned, non-nvme, or a partition.
        device(
            "/dev/nvme3n1",
            Some("Amazon EC2 NVMe Instance Storage"),
            Some("/"),
            Some("nvme"),
            "disk",
            None,
        ),
        device(
            "/dev/nvme4n1",
            Some("Amazon EC2 NVMe Instance Storage"),
            None,
            Some("nvme"),
            "disk",
            Some(vec![device(
                "/dev/nvme4n1p1",
                None,
                None,
                Some("nvme"),
                "part",
                None,
            )]),
        ),
        device("/dev/sda", Some("Amazon EC2 NVMe Instance Storage"), None, Some("sata"), "disk", None),
        device(
            "/dev/nvme5n1p1",
            Some("Amazon EC2 NVMe Instance Storage"),
            None,
            Some("nvme"),
            "part",
            None,
        ),
        device("/dev/nvme6n1", Some("Amazon EC2 NVMe Instance Storage"), None, None, "disk", None),
    ]
}

fn aws_inventory() -> Vec<BlockDevice> {
    vec![
        device("/dev/nvme0n1", Some("Amazon Elastic Block Store              "), Some("/"), Some("nvme"), "disk", None),
        device(
            "/dev/nvme1n1",
            Some("Amazon EC2 NVMe Instance Storage        "),
            None,
            Some("nvme"),
            "disk",
            None,
        ),
    ]
}

fn azure_inventory() -> Vec<BlockDevice> {
    vec![
        device("/dev/sda", Some("Virtual Disk"), Some("/"), Some("scsi"), "disk", None),
        device(
            "/dev/nvme0n1",
            Some("Microsoft NVMe Direct Disk v2           "),
            None,
            Some("nvme"),
            "disk",
            None,
        ),
    ]
}

fn gcp_inventory() -> Vec<BlockDevice> {
    vec![
        device("/dev/sda", Some("PersistentDisk"), Some("/"), Some("scsi"), "disk", None),
        device("/dev/nvme0n1", Some("nvme_card"), None, Some("nvme"), "disk", None),
    ]
}

/// Mirrors how the alias search's test doubles resolve a symbolic link: the
/// alias's final character is the device ordinal.
fn resolve_aliases(lines: &[String]) -> Vec<String> {
    lines
        .iter()
        .map(|line| {
            let ordinal = line.chars().last().unwrap();
            format!("/dev/nvme{ordinal}n1")
        })
        .collect()
}

#[test]
fn test_lsblk_filters() {
    let filtered: Vec<BlockDevice> = contrived_inventory()
        .into_iter()
        .filter(|d| is_eligible(d))
        .collect();
    let expected = vec![
        device(
            "/dev/nvme0n1",
            Some("Amazon EC2 NVMe Instance Storage"),
            None,
            Some("nvme"),
            "disk",
            Some(vec![]),
        ),
        device(
            "/dev/nvme1n1",
            Some("Amazon EC2 NVMe Instance Storage"),
            None,
            Some("nvme"),
            "disk",
            Some(vec![]),
        ),
        device(
            "/dev/nvme2n1",
            Some("some other model"),
            None,
            Some("nvme"),
            "disk",
            Some(vec![]),
        ),
        device(
            "/dev/nvme7n1",
            Some("Amazon EC2 NVMe Instance Storage"),
            None,
            Some("nvme"),
            "disk",
            None,
        ),
        device(
            "/dev/nvme8n1",
            Some("Microsoft NVMe Direct Disk v49990322"),
            None,
            Some("nvme"),
            "disk",
            None,
        ),
        device("/dev/nvme9n1", Some("nvme_card"), None, Some("nvme"), "disk", None),
    ];
    assert_eq!(expected, filtered);

    let filtered: Vec<BlockDevice> = aws_inventory()
        .into_iter()
        .filter(|d| is_eligible(d))
        .collect();
    let expected = vec![device(
        "/dev/nvme1n1",
        Some("Amazon EC2 NVMe Instance Storage        "),
        None,
        Some("nvme"),
        "disk",
        None,
    )];
    assert_eq!(expected, filtered);

    let filtered: Vec<BlockDevice> = azure_inventory()
        .into_iter()
        .filter(|d| is_eligible(d))
        .collect();
    let expected = vec![device(
        "/dev/nvme0n1",
        Some("Microsoft NVMe Direct Disk v2           "),
        None,
        Some("nvme"),
        "disk",
        None,
    )];
    assert_eq!(expected, filtered);
}

#[test]
fn test_detect_aws_bottlerocket_devices() {
    let detector = DiskDetector::new(CloudProvider::Aws, true);

    let expected = vec!["/.bottlerocket/rootfs/dev/nvme1n1".to_owned()];
    let actual = detector.detect_aws_bottlerocket_devices(&aws_inventory());
    assert_eq!(expected, actual);

    let expected = vec![
        "/.bottlerocket/rootfs/dev/nvme0n1".to_owned(),
        "/.bottlerocket/rootfs/dev/nvme1n1".to_owned(),
        "/.bottlerocket/rootfs/dev/nvme7n1".to_owned(),
    ];
    let actual = detector.detect_aws_bottlerocket_devices(&contrived_inventory());
    assert_eq!(expected, actual);
}

#[test]
fn test_detect_aws_standard_devices() {
    let detector = DiskDetector::new(CloudProvider::Aws, false);

    let expected = vec!["/dev/nvme1n1".to_owned()];
    let actual = detector.detect_aws_standard_devices(&aws_inventory());
    assert_eq!(expected, actual);

    let expected = vec![
        "/dev/nvme0n1".to_owned(),
        "/dev/nvme1n1".to_owned(),
        "/dev/nvme7n1".to_owned(),
    ];
    let actual = detector.detect_aws_standard_devices(&contrived_inventory());
    assert_eq!(expected, actual);
}

#[test]
fn test_detect_azure_devices() {
    let detector = DiskDetector::new(CloudProvider::Azure, false);

    let expected = vec!["/dev/nvme0n1".to_owned()];
    let actual = detector.detect_azure_devices(&azure_inventory());
    assert_eq!(expected, actual);

    let expected = vec!["/dev/nvme8n1".to_owned()];
    let actual = detector.detect_azure_devices(&contrived_inventory());
    assert_eq!(expected, actual);
}

#[test]
fn test_detect_gcp_devices() {
    let detector = DiskDetector::new(CloudProvider::Gcp, false);

    let find_lines = vec![
        "/dev/disk/by-id/google-local-nvme-ssd-1".to_owned(),
        "/dev/disk/by-id/google-local-ssd-block0".to_owned(),
        "/dev/disk/by-id/google-persistent-disk-0".to_owned(),
        "/dev/disk/by-id/google-persistent-disk-0-part3".to_owned(),
        "/dev/disk/by-id/google-persistent-disk-0-part4".to_owned(),
        "/dev/disk/by-id/nvme-nvme_card_nvme_card5".to_owned(),
    ];
    let resolved = resolve_aliases(&alias_disk_lines(&find_lines));
    let expected = vec!["/dev/nvme0n1".to_owned()];
    let actual = detector.detect_gcp_devices(&gcp_inventory(), &resolved);
    assert_eq!(expected, actual);

    let find_lines = vec![
        "/dev/disk/by-id/google-local-ssd-block9".to_owned(),
        "/dev/disk/by-id/google-local-ssd-doesnt-match-lsblk4".to_owned(),
        "/dev/disk/by-id/google-local-ssd-ok-lsblk2".to_owned(),
    ];
    let resolved = resolve_aliases(&alias_disk_lines(&find_lines));
    let expected = vec!["/dev/nvme2n1".to_owned(), "/dev/nvme9n1".to_owned()];
    let actual = detector.detect_gcp_devices(&contrived_inventory(), &resolved);
    assert_eq!(expected, actual);
}

#[test]
fn alias_lines_drop_partitions() {
    let lines = vec![
        "/dev/disk/by-id/google-local-ssd-block0".to_owned(),
        "/dev/disk/by-id/google-local-ssd-block0-part1".to_owned(),
        "/dev/disk/by-id/google-local-ssd-block0-part2".to_owned(),
    ];
    let kept = alias_disk_lines(&lines);
    assert_eq!(vec!["/dev/disk/by-id/google-local-ssd-block0".to_owned()], kept);
}

#[test]
fn azure_match_tolerates_padding_but_not_case() {
    let detector = DiskDetector::new(CloudProvider::Azure, false);
    let padded = vec![device(
        "/dev/nvme0n1",
        Some("   Microsoft NVMe Direct Disk v9   "),
        None,
        Some("nvme"),
        "disk",
        None,
    )];
    assert_eq!(vec!["/dev/nvme0n1".to_owned()], detector.detect_azure_devices(&padded));

    let wrong_case = vec![device(
        "/dev/nvme0n1",
        Some("microsoft nvme direct disk v9"),
        None,
        Some("nvme"),
        "disk",
        None,
    )];
    assert!(detector.detect_azure_devices(&wrong_case).is_empty());
}

#[test]
fn generic_detection_keeps_every_eligible_device() {
    let paths = eligible_paths(&contrived_inventory());
    assert_eq!(
        vec![
            "/dev/nvme0n1".to_owned(),
            "/dev/nvme1n1".to_owned(),
            "/dev/nvme2n1".to_owned(),
            "/dev/nvme7n1".to_owned(),
            "/dev/nvme8n1".to_owned(),
            "/dev/nvme9n1".to_owned(),
        ],
        paths
    );
}

#[test]
fn empty_detection_is_a_fatal_error() {
    let detector = DiskDetector::new(CloudProvider::Aws, false);
    let inventory = vec![device("/dev/sda", Some("whatever"), Some("/"), Some("sata"), "disk", None)];
    let result = detector.detect(&inventory, &vec![]);
    assert_eq!(Err(SetupError::DetectionEmpty), result);
}

#[test]
fn detection_sorts_and_deduplicates() {
    let detector = DiskDetector::new(CloudProvider::Generic, false);
    let inventory = vec![
        device("/dev/nvme9n1", None, None, Some("nvme"), "disk", None),
        device("/dev/nvme1n1", None, None, Some("nvme"), "disk", None),
        device("/dev/nvme9n1", None, None, Some("nvme"), "disk", None),
    ];
    let result = detector.detect(&inventory, &vec![]).unwrap();
    assert_eq!(vec!["/dev/nvme1n1".to_owned(), "/dev/nvme9n1".to_owned()], result);
}
