use std::collections::hash_map::DefaultHasher;
use std::hash::Hasher;

use duplicate_checker::deletion_manager::DeletionManager;
use duplicate_checker::digest::png_key;
use duplicate_checker::duplicate_package::DuplicatePackage;
use duplicate_checker::file_data_img::FileDataImg;
use duplicate_checker::file_data_mov::FileDataMov;
use duplicate_checker::groups::FileGroups;
use duplicate_checker::png_scan::PngScan;

fn frame(seed: u8) -> Vec<u8> {
    (0..120u32).map(|i| (i as u8).wrapping_mul(7).wrapping_add(seed)).collect()
}

/// The fingerprint as the frame's first 96 bytes give it when each 16-byte block
/// is read as a big-endian `u128` and handed to the hasher as a `u128`.
fn expected_fingerprint(data: &[u8]) -> u64 {
    let mut hasher = DefaultHasher::new();
    for block in data[0..96].chunks(16) {
        hasher.write_u128(u128::from_be_bytes(block.try_into().unwrap()));
    }
    hasher.finish()
}

#[test]
fn frame_fingerprint_covers_first_96_bytes() {
    let mut mov = FileDataMov::new(10);
    let data = frame(3);
    assert_eq!(mov.compute_frame(&data), expected_fingerprint(&data));
    let mut other = data.clone();
    other[100] = other[100].wrapping_add(1);
    assert_eq!(mov.compute_frame(&other), mov.compute_frame(&data));
    other[95] = other[95].wrapping_add(1);
    assert_ne!(mov.compute_frame(&other), mov.compute_frame(&data));
}

#[test]
fn at_most_five_frames_are_fingerprinted() {
    let mut mov = FileDataMov::new(10);
    let mut taken = 0;
    while mov.needs_frames() {
        mov.add_frame(&frame(taken));
        taken += 1;
    }
    assert_eq!(taken, 5);
    let mut state = DefaultHasher::new();
    mov.hash(&mut state);
    let mut expected = DefaultHasher::new();
    for seed in 0..5u8 {
        expected.write_u64(expected_fingerprint(&frame(seed)));
    }
    assert_eq!(state.finish(), expected.finish());
}

#[test]
fn video_equality_compares_size_and_frame_count() {
    let mut a = FileDataMov::new(10);
    let mut b = FileDataMov::new(10);
    a.add_frame(&frame(1));
    b.add_frame(&frame(2));
    assert!(a == b);
    assert!(!a.same_record(&b));
    let c = FileDataMov::new(10);
    assert!(!(a == c));
    let d = FileDataMov::new(11);
    assert!(!(c == d));
    let mut ha = DefaultHasher::new();
    a.hash(&mut ha);
    let mut hb = DefaultHasher::new();
    b.hash(&mut hb);
    assert_ne!(ha.finish(), hb.finish());
}

#[test]
fn duplicate_package_keeps_its_paths() {
    let p = DuplicatePackage::new("a.png".to_string(), "b.png".to_string());
    assert_eq!(p.get_file_one(), "a.png");
    assert_eq!(p.get_file_two(), "b.png");
}

#[test]
fn deletion_manager_is_last_in_first_out() {
    let mut m = DeletionManager::new();
    assert!(m.is_empty());
    m.add_duplicate(DuplicatePackage::new("1".to_string(), "2".to_string()));
    m.add_duplicate(DuplicatePackage::new("3".to_string(), "4".to_string()));
    assert!(!m.is_empty());
    let top = m.pop_most_recent();
    assert_eq!(top.get_file_one(), "3");
    assert_eq!(top.get_file_two(), "4");
    let next = m.pop_most_recent();
    assert_eq!(next.get_file_one(), "1");
    assert!(m.is_empty());
}

#[test]
fn png_groups_by_digest() {
    let mut groups: FileGroups<Vec<u8>> = FileGroups::new();
    groups.add(png_key(b"same"), "x/a.png".to_string());
    groups.add(png_key(b"other"), "x/b.png".to_string());
    groups.add(png_key(b"same"), "y/c.png".to_string());
    assert_eq!(groups.len(), 2);
    assert_eq!(groups.members(0), &vec!["x/a.png".to_string(), "y/c.png".to_string()]);
    assert_eq!(groups.members(1), &vec!["x/b.png".to_string()]);
    assert_eq!(groups.key(1), &png_key(b"other"));
}

#[test]
fn sha512_digest_of_known_input() {
    let expected = "ddaf35a193617abacc417349ae20413112e6fa4e89a97ea20a9eeee64b55d39a2192992a274fc1a836ba3c23a3feebbd454d4423643ce80e2a9ac94fa54ca49f";
    let hex: String = png_key(b"abc").iter().map(|b| format!("{:02x}", b)).collect();
    assert_eq!(hex, expected);
}

fn photo(exposure: &str) -> FileDataImg {
    FileDataImg::from_exif_text(
        5,
        &Some(exposure.to_string()),
        &Some("10 pixels".to_string()),
        &Some("20 pixels".to_string()),
        &None,
    )
    .unwrap()
}

#[test]
fn photo_groups_tell_exposure_apart() {
    let mut groups: FileGroups<FileDataImg> = FileGroups::new();
    groups.add(photo("1/60 s"), "a.jpg".to_string());
    groups.add(photo("1/60 s"), "b.jpg".to_string());
    groups.add(photo("1/30 s"), "c.jpg".to_string());
    assert_eq!(groups.len(), 2);
    assert_eq!(groups.members(0).len(), 2);
}

#[test]
fn video_groups_use_fingerprints_too() {
    let mut a = FileDataMov::new(10);
    a.add_frame(&frame(1));
    let mut b = FileDataMov::new(10);
    b.add_frame(&frame(1));
    let mut c = FileDataMov::new(10);
    c.add_frame(&frame(2));
    let mut groups: FileGroups<FileDataMov> = FileGroups::new();
    groups.add(a, "a.MOV".to_string());
    groups.add(b, "b.MOV".to_string());
    groups.add(c, "c.MOV".to_string());
    assert_eq!(groups.len(), 2);
    assert_eq!(groups.members(0), &vec!["a.MOV".to_string(), "b.MOV".to_string()]);
}

#[test]
fn png_scan_reports_repeated_contents() {
    let mut scan = PngScan::new();
    assert!(!scan.size_seen(10));
    assert!(scan.size_seen(10));
    assert!(!scan.size_seen(11));
    assert!(!scan.contents_seen(b"one"));
    assert!(!scan.contents_seen(b"two"));
    assert!(scan.contents_seen(b"one"));
}
