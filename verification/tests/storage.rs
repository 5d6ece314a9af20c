use lapi_launcher::storage::{
    mount_for_path, parse_mounts, parse_usage, select_mounts, unescape_path, Mount, Usage,
};

fn sources(mounts: &[Mount]) -> Vec<Vec<u8>> {
    mounts.iter().map(|mount| mount.source.clone()).collect()
}

fn mounts_of(contents: &str) -> Vec<Mount> {
    parse_mounts(contents)
}

#[test]
fn mountinfo_decodes_escaped_paths_and_optional_fields() {
    let mounts = parse_mounts(
        "36 25 8:1 /home /home/my\\040files\\134dir rw shared:1 master:2 - ext4 /dev/disk\\040one rw\ninvalid\n",
    );
    assert_eq!(mounts.len(), 1);
    assert_eq!(mounts[0].mount_point, b"/home/my files\\dir".to_vec());
    assert_eq!(mounts[0].source, b"/dev/disk one".to_vec());
    assert_eq!(unescape_path("/a\\011b\\012c"), b"/a\tb\nc".to_vec());
    assert_eq!(unescape_path("/a\\999"), b"/a\\999".to_vec());
    assert_eq!(unescape_path("/a\\377"), b"/a\xff".to_vec());
}

#[test]
fn personal_mount_uses_longest_component_prefix() {
    let mounts = mounts_of(
        "1 0 8:1 / / rw - ext4 /dev/sda1 rw\n2 1 8:2 / /home rw - ext4 /dev/sda2 rw\n3 2 8:3 / /home/me rw - xfs /dev/sdb1 rw\n",
    );
    let selected = select_mounts(&mounts, Some(b"/home/me/docs".as_slice()), &sources(&mounts));
    assert_eq!(selected.len(), 2);
    assert_eq!(selected[0].0, "personal");
    assert_eq!(mounts[selected[0].1].device, "8:3");
    assert_eq!(selected[1].0, "sistema");
    assert_eq!(mounts[selected[1].1].device, "8:1");
    assert_eq!(
        mounts[mount_for_path(&mounts, b"/home/metadata").unwrap()].device,
        "8:2"
    );
}

#[test]
fn btrfs_subvolumes_share_one_filesystem_entry() {
    let mounts = mounts_of(
        "1 0 0:36 /root / rw - btrfs /dev/mapper/fixture-volume rw\n2 1 0:37 /home /home rw - btrfs /dev/mapper/fixture-volume rw\n",
    );
    let selected = select_mounts(&mounts, Some(b"/home/me".as_slice()), &sources(&mounts));
    assert_eq!(selected.len(), 1);
    assert_eq!(selected[0].0, "personal");
}

#[test]
fn overlay_and_memory_or_network_mounts_are_not_disks() {
    let mounts = mounts_of(
        "1 0 0:40 / / rw - overlay composefs rw\n2 1 0:36 /home /var/home rw - btrfs /dev/mapper/fixture-volume rw\n",
    );
    let selected = select_mounts(&mounts, Some(b"/var/home/me".as_slice()), &sources(&mounts));
    assert_eq!(selected.len(), 1);
    assert_eq!(mounts[selected[0].1].fs_type, "btrfs");
    for filesystem in ["tmpfs", "squashfs", "nfs", "nfs4", "cifs", "fuse.sshfs"] {
        let mounts = mounts_of(&format!("1 0 0:1 / / rw - {filesystem} none rw\n"));
        assert!(select_mounts(&mounts, Some(b"/home/me".as_slice()), &sources(&mounts)).is_empty());
    }
    let mounts = mounts_of("1 0 252:0 / / rw - ext4 /dev/zram0 rw\n");
    assert!(select_mounts(&mounts, None, &sources(&mounts)).is_empty());
}

#[test]
fn df_preserves_used_and_available_without_counting_reserved_as_used() {
    let usage = parse_usage("1B-blocks Used Avail\n1000 600 300\n").unwrap();
    assert_eq!(
        usage,
        Usage {
            total: 1000,
            used: 600,
            available: 300
        }
    );
    assert_ne!(usage.used, usage.total - usage.available);
    assert!(parse_usage("1B-blocks Used Avail\n0 0 0\n").is_none());
    assert!(parse_usage("1B-blocks Used Avail\n1000 - 300\n").is_none());
    assert!(parse_usage("1B-blocks Used Avail\n1000 600 300\n2000 600 300\n").is_none());
}

use lapi_launcher::i18n::{Language, Translator};
use lapi_launcher::storage::{
    attribute_value, capacity_bytes, describe_device, details, device_model, device_type, persistent,
    start_devices, DeviceFacts, DeviceWalk, DiskReport, UsageText,
};

fn spanish() -> Translator {
    Translator::new(Language::Spanish, &Vec::new())
}

#[test]
fn usb_rotational_flag_does_not_claim_a_flash_drive_is_hdd() {
    assert_eq!(device_type(b"/tmp/usb1/block/sda", None, Some("1\n".into()), spanish()), "USB");
    assert_eq!(device_type(b"/tmp/pci0/block/sdb", None, Some("1\n".into()), spanish()), "HDD");
    assert_eq!(device_type(b"/tmp/pci0/block/sdb", None, Some("0\n".into()), spanish()), "SSD");
    assert_eq!(
        device_type(b"/tmp/mmc_host/mmc0/mmcblk0", Some("MMC\n".into()), None, spanish()),
        "eMMC"
    );
    assert_eq!(device_type(b"/sys/devices/pci0/nvme/nvme0/nvme0n1", None, None, spanish()), "SSD NVMe");
    assert_eq!(device_type(b"/sys/devices/virtio1/block/vda", None, Some("1".into()), spanish()), "Virtual");
    assert_eq!(device_type(b"/sys/devices/pci0/block/sdc", None, None, spanish()), "tipo no disponible");
}

#[test]
fn drive_descriptions_read_model_and_size() {
    assert_eq!(attribute_value(Some("  x \n".into())).as_deref(), Some("x"));
    assert_eq!(attribute_value(Some(" \n".into())), None);
    assert_eq!(
        device_model(vec![None, Some(" \n".into()), Some("  Fixture NVMe 1000  \n".into())], spanish()),
        "Fixture NVMe 1000"
    );
    assert_eq!(device_model(vec![None, None, None], spanish()), "Modelo no disponible");
    assert_eq!(capacity_bytes(Some("1953125000\n".into())), Some(1_000_000_000_000));
    assert_eq!(capacity_bytes(Some("99999999999999999999".into())), None);
    assert_eq!(capacity_bytes(Some("36028797018963968".into())), None);
    assert_eq!(
        describe_device("Fixture NVMe 1000", "SSD NVMe", "1.00 TB físicos"),
        "Fixture NVMe 1000 · SSD NVMe · 1.00 TB físicos"
    );
}

#[test]
fn memory_disks_and_non_utf8_names_are_told_apart() {
    let mounts = parse_mounts("1 0 252:0 / / rw - ext4 /dev/ramdisk rw\n2 0 8:1 / /x rw - ext4 /dev/\\377ram rw\n");
    assert!(!persistent(&mounts[0]));
    assert!(persistent(&mounts[1]));
}

#[test]
fn disk_rows_list_each_drive_and_the_space() {
    let disks = vec![DiskReport {
        context: "personal",
        fs_type: "btrfs".into(),
        drives: vec!["A".into(), "B".into()],
        usage: Some(UsageText {
            used: "1.0 GiB".into(),
            total: "2.0 GiB".into(),
            available: "1.0 GiB".into(),
        }),
    }];
    let rows = details(&disks, spanish());
    assert_eq!(rows[0], ("Disco personal".to_string(), "btrfs".to_string()));
    assert_eq!(rows[1].0, "Unidad 1");
    assert_eq!(rows[2].0, "Unidad 2");
    assert_eq!(rows[3], ("Usado / total".to_string(), "1.0 GiB / 2.0 GiB".to_string()));
    assert_eq!(rows.len(), 5);
    let none = details(&Vec::new(), spanish());
    assert_eq!(none, [("Disco".to_string(), "No disponible".to_string())]);
}

#[test]
fn resolves_mapper_stacks_partitions_and_btrfs_virtual_device_numbers() {
    let drive = b"/sys/devices/pci0/nvme/nvme0/nvme0n1".to_vec();
    let partition = b"/sys/devices/pci0/nvme/nvme0/nvme0n1/nvme0n1p3".to_vec();
    let encrypted = b"/sys/devices/virtual/block/dm-0".to_vec();
    let logical = b"/sys/devices/virtual/block/dm-1".to_vec();
    let pending = start_devices(logical.clone(), "btrfs", &Vec::new());
    let mut walk = DeviceWalk::new(pending, b"/sys/devices/virtual".to_vec());
    while let Some(device) = walk.next() {
        let facts = if device == logical {
            DeviceFacts { device, partition: false, parent: None, slaves: vec![encrypted.clone()] }
        } else if device == encrypted {
            DeviceFacts { device, partition: false, parent: None, slaves: vec![partition.clone()] }
        } else if device == partition {
            DeviceFacts { device, partition: true, parent: Some(drive.clone()), slaves: Vec::new() }
        } else {
            DeviceFacts { device, partition: false, parent: None, slaves: Vec::new() }
        };
        walk.visit(Some(facts));
    }
    assert_eq!(walk.finish(), [drive]);
}

#[test]
fn multi_device_btrfs_deduplicates_physical_drives() {
    let first = b"/sys/devices/pci0/block/sda".to_vec();
    let second = b"/sys/devices/pci0/block/sdb".to_vec();
    let first_partition = b"/sys/devices/pci0/block/sda/sda1".to_vec();
    let second_partition = b"/sys/devices/pci0/block/sdb/sdb1".to_vec();
    let volumes = vec![vec![first_partition.clone(), second_partition.clone(), first_partition.clone()]];
    let pending = start_devices(first_partition.clone(), "btrfs", &volumes);
    assert_eq!(pending.len(), 3);
    let mut walk = DeviceWalk::new(pending, b"/sys/devices/virtual".to_vec());
    while let Some(device) = walk.next() {
        let parent = if device == first_partition { Some(first.clone()) } else if device == second_partition { Some(second.clone()) } else { None };
        let partition = parent.is_some();
        walk.visit(Some(DeviceFacts { device, partition, parent, slaves: Vec::new() }));
    }
    assert_eq!(walk.finish(), [first, second]);
}
