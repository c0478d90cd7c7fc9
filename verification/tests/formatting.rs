use fs_tree::drives::drive_icon;
use fs_tree::drives::DriveInfo;
use fs_tree::drives::DriveKind;
use fs_tree::filesystem::extn_from_path;
use fs_tree::filesystem::format_size;
use fs_tree::filesystem::name_from_path;
use fs_tree::filesystem::u64_to_string;
use fs_tree::filesystem::File;
use fs_tree::filesystem::Folder;
use fs_tree::filesystem::Percentage;
use fs_tree::filesystem::GB;
use fs_tree::filesystem::KB;
use fs_tree::filesystem::MB;
use fs_tree::filesystem::TB;
use fs_tree::memory::MemoryUsage;
use fs_tree::tree_builder::is_disk;

#[test]
fn bytes_below_the_first_threshold_stay_raw() {
    assert_eq!(format_size(0), "0 bytes");
    assert_eq!(format_size(1), "1 bytes");
    assert_eq!(format_size(1123), "1123 bytes");
}

#[test]
fn kilobytes_have_two_decimals() {
    assert_eq!(format_size(KB + 100), "1.10 KB");
    assert_eq!(format_size(1536), "1.50 KB");
    assert_eq!(format_size(10 * KB), "10.00 KB");
}

#[test]
fn megabytes_gigabytes_terabytes_scale_by_powers_of_1024() {
    assert_eq!(format_size(5 * MB), "5.00 MB");
    assert_eq!(format_size(MB + 10 * KB), "1.01 MB");
    assert_eq!(format_size(3 * GB), "3.00 GB");
    assert_eq!(format_size(2 * TB), "2.00 TB");
}

#[test]
fn decimal_rendering_of_plain_numbers() {
    assert_eq!(u64_to_string(0), "0");
    assert_eq!(u64_to_string(7), "7");
    assert_eq!(u64_to_string(1234567890), "1234567890");
    assert_eq!(u64_to_string(u64::MAX), "18446744073709551615");
}

#[test]
fn percentages_round_to_hundredths() {
    assert_eq!(Percentage::new(100, 600).hundredths(), 1667);
    assert_eq!(Percentage::new(200, 600).hundredths(), 3333);
    assert_eq!(Percentage::new(300, 600).hundredths(), 5000);
    assert_eq!(Percentage::new(600, 600).hundredths(), 10000);
    assert_eq!(Percentage::new(0, 0).hundredths(), 0);
    assert_eq!(Percentage::zero().hundredths(), 0);
}

#[test]
fn names_and_extensions_come_from_the_path() {
    assert_eq!(name_from_path("/a/b/c.txt"), "c.txt");
    assert_eq!(name_from_path("plain"), "plain");
    assert_eq!(extn_from_path("/a/b/c.txt"), "txt");
    assert_eq!(extn_from_path("/a/b/archive.tar.gz"), "gz");
    assert_eq!(extn_from_path("/a/b/noext"), "");
    assert_eq!(extn_from_path("/a/b/.hidden"), "");

    let file = File::new("/project/src/main.rs".to_string());
    assert_eq!(file.name, "main.rs");
    assert_eq!(file.extn, "rs");
    assert_eq!(file.size, 0);

    let folder = Folder::new("/project/src".to_string());
    assert_eq!(folder.name, "src");
    assert!(!folder.traversed);
    assert!(!folder.disk);
}

#[test]
fn only_the_filesystem_root_is_a_disk() {
    assert!(is_disk("/"));
    assert!(!is_disk("/home"));
    assert!(!is_disk("relative"));
    let disk = Folder::new_disk("/".to_string());
    assert!(disk.disk);
}

#[test]
fn drive_icons_follow_the_kind() {
    assert_eq!(drive_icon(DriveKind::Hdd), "../icons/drives/hdd.png");
    assert_eq!(drive_icon(DriveKind::Ssd), "../icons/drives/ssd.png");
    assert_eq!(drive_icon(DriveKind::Other), "../icons/drives/default_disk.png");
    let info = DriveInfo::new(
        "disk0".to_string(),
        "SSD".to_string(),
        DriveKind::Ssd,
        1000,
        400,
        "ext4".to_string(),
        false,
    );
    assert_eq!(info.icon, "../icons/drives/ssd.png");
    assert_eq!(info.total_space, 1000);
    assert_eq!(info.available_space, 400);
}

#[test]
fn memory_usage_converts_to_mebibytes() {
    let usage = MemoryUsage::from_process_kib(3 * 1024);
    assert_eq!(usage.used_memory, 3);
    assert_eq!(usage.memory_limit, 4096);
    let fallback = MemoryUsage::unavailable();
    assert_eq!(fallback.used_memory, 0);
    assert_eq!(fallback.memory_limit, 4096);
}
