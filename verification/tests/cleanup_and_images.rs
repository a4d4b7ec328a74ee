use duplicate_checker::choice::{
    choose_file_to_keep, classify_extension, files_to_remove, kept_after, parse_line_u16,
    FileKind, KeepChoice,
};
use duplicate_checker::cleanup::{fragile_folder_check, group_removals, in_fragile_folder, lies_in};
use duplicate_checker::groups::FileGroups;
use duplicate_checker::image_hash::{compare_hashes, hash_distance};

fn strings(v: &[&str]) -> Vec<String> {
    v.iter().map(|s| s.to_string()).collect()
}

#[test]
fn folder_membership_is_by_path_prefix() {
    assert!(lies_in("a/b/c.png", "a/b"));
    assert!(lies_in("a/b/c.png", "a/b/"));
    assert!(lies_in("a/b/d/c.png", "a/b"));
    assert!(!lies_in("a/bc/x.png", "a/b"));
    assert!(!lies_in("a/b", "a/b"));
    assert!(!lies_in("x.png", "a/b"));
    assert!(in_fragile_folder(&"f/x.png".to_string(), &strings(&["g", "f"])));
    assert!(!in_fragile_folder(&"h/x.png".to_string(), &strings(&["g", "f"])));
}

#[test]
fn copies_in_fragile_folders_go_first() {
    let fragile = strings(&["frag"]);
    assert_eq!(group_removals(&strings(&["frag/a", "keep/b"]), &fragile), strings(&["frag/a"]));
    assert_eq!(group_removals(&strings(&["keep/a", "frag/b"]), &fragile), strings(&["frag/b"]));
    assert_eq!(
        group_removals(&strings(&["frag/a", "keep/b", "frag/c", "keep/d"]), &fragile),
        strings(&["frag/a", "frag/c", "keep/b"])
    );
    assert_eq!(group_removals(&strings(&["frag/a", "frag/b"]), &fragile), strings(&["frag/a"]));
    assert_eq!(group_removals(&strings(&["only"]), &fragile), strings(&[]));
}

#[test]
fn without_fragile_folders_the_copy_seen_first_goes() {
    let none: Vec<String> = Vec::new();
    assert_eq!(group_removals(&strings(&["a", "b", "c"]), &none), strings(&["a", "b"]));
}

#[test]
fn removal_plan_over_all_groups() {
    let mut groups: FileGroups<Vec<u8>> = FileGroups::new();
    groups.add(vec![1], "frag/a".to_string());
    groups.add(vec![2], "keep/lonely".to_string());
    groups.add(vec![1], "keep/b".to_string());
    groups.add(vec![3], "keep/c".to_string());
    groups.add(vec![3], "keep/d".to_string());
    let plan = fragile_folder_check(&strings(&["frag"]), &groups);
    assert_eq!(plan, strings(&["frag/a", "keep/c"]));
}

#[test]
fn extensions_pick_the_kind() {
    assert_eq!(classify_extension("png"), FileKind::Png);
    assert_eq!(classify_extension("jpg"), FileKind::Jpeg);
    assert_eq!(classify_extension("jpeg"), FileKind::Jpeg);
    assert_eq!(classify_extension("JPG"), FileKind::Jpeg);
    assert_eq!(classify_extension("MOV"), FileKind::Mov);
    assert_eq!(classify_extension("PNG"), FileKind::Other);
    assert_eq!(classify_extension("mov"), FileKind::Other);
    assert_eq!(classify_extension(""), FileKind::Other);
}

#[test]
fn typed_numbers() {
    assert_eq!(parse_line_u16("12\n"), Some(12));
    assert_eq!(parse_line_u16("0\n"), Some(0));
    assert_eq!(parse_line_u16("\n"), None);
    assert_eq!(parse_line_u16("x\n"), None);
    assert_eq!(parse_line_u16("70000\n"), None);
    assert_eq!(choose_file_to_keep("1\n", 3), KeepChoice::Keep(1));
    assert_eq!(choose_file_to_keep("3\n", 3), KeepChoice::OutOfRange);
    assert_eq!(choose_file_to_keep("one\n", 3), KeepChoice::NotANumber);
    assert_eq!(files_to_remove(&strings(&["a", "b", "c"]), 1), strings(&["a", "c"]));
    assert_eq!(files_to_remove(&strings(&["a"]), 0), strings(&[]));
    assert_eq!(files_to_remove(&strings(&["a"]), 5), strings(&["a"]));
}

#[test]
fn answers_until_a_file_is_chosen() {
    let files = strings(&["a", "b", "c"]);
    let mut removed: Vec<String> = Vec::new();
    let mut num_to_keep: u16 = 0;
    for line in ["7\n", "x\n", "1\n"] {
        let choice = choose_file_to_keep(line, files.len());
        if let KeepChoice::Keep(k) = choice {
            num_to_keep = k;
        }
        if let Some(keep) = kept_after(choice, num_to_keep) {
            removed.extend(files_to_remove(&files, keep));
        }
    }
    assert_eq!(kept_after(KeepChoice::OutOfRange, 0), None);
    assert_eq!(kept_after(KeepChoice::NotANumber, 0), Some(0));
    assert_eq!(kept_after(KeepChoice::Keep(2), 0), Some(2));
    assert_eq!(removed, strings(&["b", "c", "a", "c"]));
}

#[test]
fn hamming_distance_counts_differing_bits() {
    assert_eq!(hash_distance(&[0xff], &[0x0f]), 4);
    assert_eq!(hash_distance(&[0xff, 0x01], &[0x00, 0x03]), 9);
    assert_eq!(hash_distance(&[0xaa, 0xff], &[0xaa]), 0);
    assert_eq!(hash_distance(&[], &[1, 2]), 0);
    assert_eq!(hash_distance(&[0x0f, 0x33], &[0xf0, 0x00]), hash_distance(&[0xf0, 0x00], &[0x0f, 0x33]));
    assert_eq!(hash_distance(&[0x5a, 0x77], &[0x5a, 0x77]), 0);
}

fn png_bytes(shade: u8) -> Vec<u8> {
    let img = image::ImageBuffer::from_fn(32, 32, |x, y| {
        let v = if (x / 8 + y / 8) % 2 == 0 { shade } else { 255 - shade };
        image::Luma([v])
    });
    let mut out = Vec::new();
    image::DynamicImage::ImageLuma8(img)
        .write_to(&mut out, image::ImageOutputFormat::Png)
        .unwrap();
    out
}

#[test]
fn hashes_are_compared() {
    let hasher = img_hash::HasherConfig::new().to_hasher();
    let ha = hasher.hash_image(&image::load_from_memory(&png_bytes(0)).unwrap());
    let hb = hasher.hash_image(&image::load_from_memory(&png_bytes(200)).unwrap());
    let same = compare_hashes(ha.as_bytes(), ha.as_bytes());
    assert_eq!(same.distance, 0);
    assert_eq!(same.first_hash, ha.to_base64());
    assert_eq!(same.second_hash, ha.to_base64());
    let other = compare_hashes(ha.as_bytes(), hb.as_bytes());
    assert_eq!(other.distance, ha.dist(&hb));
    assert_eq!(other.second_hash, hb.to_base64());
}

#[test]
fn base64_text_of_hashes() {
    let c = compare_hashes(b"Man", b"Ma");
    assert_eq!(c.first_hash, "TWFu");
    assert_eq!(c.second_hash, "TWE=");
    let d = compare_hashes(b"M", b"");
    assert_eq!(d.first_hash, "TQ==");
    assert_eq!(d.second_hash, "");
    let e = compare_hashes(&[0xfb, 0xff, 0xbf, 0x00], &[0xff; 6]);
    assert_eq!(e.first_hash, "+/+/AA==");
    assert_eq!(e.second_hash, "////////");
    assert_eq!(e.distance, 1 + 0 + 1 + 8);
}
