use image_renamer::errors::{verify_path, Error};
use image_renamer::planner::{EntryInfo, Outcome, Planner};

// 2024-01-01 00:00:00 UTC
const NEW_YEAR_2024: i64 = 1704067200;
// 2020-02-29 00:00:00 UTC (leap day)
const LEAP_DAY_2020: i64 = 1582934400;

fn entry(name: &str, is_file: bool, secs: i64) -> EntryInfo {
    EntryInfo { name: name.to_string(), is_file, created_secs: secs }
}

fn renamed_to(p: &mut Planner, e: &EntryInfo) -> (String, String) {
    match p.process_entry(e) {
        Ok(Outcome::Renamed { old_name, new_name }) => (old_name, new_name),
        other => panic!("expected a rename, got {:?}", other.map_err(|e| e.message())),
    }
}

#[test]
fn three_colliding_jpgs_get_distinct_names() {
    let mut p = Planner::new(vec!["a.jpg".to_string(), "b.jpg".to_string(), "c.jpg".to_string()]);
    let (o1, n1) = renamed_to(&mut p, &entry("a.jpg", true, NEW_YEAR_2024));
    let (o2, n2) = renamed_to(&mut p, &entry("b.jpg", true, NEW_YEAR_2024));
    let (o3, n3) = renamed_to(&mut p, &entry("c.jpg", true, NEW_YEAR_2024));
    assert_eq!(o1, "a.jpg");
    assert_eq!(o2, "b.jpg");
    assert_eq!(o3, "c.jpg");
    assert_eq!(n1, "2024-01-01.jpg");
    assert_eq!(n2, "2024-01-01_1.jpg");
    assert_eq!(n3, "2024-01-01_2.jpg");
    assert_eq!(p.count(), 3);
    assert!(p.contains_name(&"2024-01-01.jpg".to_string()));
    assert!(p.contains_name(&"2024-01-01_1.jpg".to_string()));
    assert!(p.contains_name(&"2024-01-01_2.jpg".to_string()));
    assert!(!p.contains_name(&"a.jpg".to_string()));
    assert!(!p.contains_name(&"b.jpg".to_string()));
    assert!(!p.contains_name(&"c.jpg".to_string()));
}

#[test]
fn empty_path_is_invalid_input() {
    assert_eq!(verify_path("", false), Err(Error::InvalidInput));
    assert_eq!(verify_path("", true), Err(Error::InvalidInput));
}

#[test]
fn unopenable_path_is_invalid_path() {
    assert_eq!(verify_path("/definitely/not/there", false), Err(Error::InvalidPath));
}

#[test]
fn openable_path_is_accepted() {
    assert_eq!(verify_path("/tmp", true), Ok(()));
}

#[test]
fn summary_counts_only_qualifying_files() {
    let names = vec![
        "a.jpg".to_string(),
        "b.PNG".to_string(),
        "c.jpeg".to_string(),
        "d.gif".to_string(),
        "e.heic".to_string(),
        "notes.txt".to_string(),
        "readme.TXT".to_string(),
    ];
    let mut p = Planner::new(names.clone());
    let mut renames = 0;
    for name in &names {
        match p.process_entry(&entry(name, true, NEW_YEAR_2024)).unwrap() {
            Outcome::Renamed { .. } => renames += 1,
            Outcome::SkippedExtension => {}
            other => panic!("expected a rename or an extension skip, got {:?}", other),
        }
    }
    assert_eq!(renames, 5);
    assert_eq!(p.count(), 5);
    assert!(p.contains_name(&"notes.txt".to_string()));
    assert!(p.contains_name(&"readme.TXT".to_string()));
}

#[test]
fn non_file_entries_are_skipped_silently() {
    let mut p = Planner::new(vec!["holiday".to_string(), "x.jpg".to_string()]);
    match p.process_entry(&entry("holiday", false, 0)).unwrap() {
        Outcome::SkippedNotFile => {}
        other => panic!("expected a silent skip, got {:?}", other),
    }
    assert_eq!(p.count(), 0);
    assert!(p.contains_name(&"holiday".to_string()));
}

#[test]
fn missing_extension_is_fatal() {
    let mut p = Planner::new(vec![".gitignore".to_string(), "README".to_string()]);
    assert_eq!(
        p.process_entry(&entry(".gitignore", true, NEW_YEAR_2024)).unwrap_err(),
        Error::NameExtractionError
    );
    assert_eq!(
        p.process_entry(&entry("README", true, NEW_YEAR_2024)).unwrap_err(),
        Error::NameExtractionError
    );
    assert_eq!(p.count(), 0);
}

#[test]
fn trailing_dot_means_empty_extension_and_a_skip() {
    let mut p = Planner::new(vec!["photo.".to_string()]);
    match p.process_entry(&entry("photo.", true, NEW_YEAR_2024)).unwrap() {
        Outcome::SkippedExtension => {}
        other => panic!("expected an extension skip, got {:?}", other),
    }
    assert!(p.contains_name(&"photo.".to_string()));
}

#[test]
fn extension_matching_is_case_insensitive_and_lowercases() {
    let mut p = Planner::new(vec!["HOLIDAY.JPG".to_string()]);
    let (_, n) = renamed_to(&mut p, &entry("HOLIDAY.JPG", true, NEW_YEAR_2024));
    assert_eq!(n, "2024-01-01.jpg");
}

#[test]
fn leap_day_formats_correctly() {
    let mut p = Planner::new(vec!["pic.tiff".to_string()]);
    let (_, n) = renamed_to(&mut p, &entry("pic.tiff", true, LEAP_DAY_2020));
    assert_eq!(n, "2020-02-29.tiff");
}

#[test]
fn epoch_formats_correctly() {
    let mut p = Planner::new(vec!["pic.raw".to_string()]);
    let (_, n) = renamed_to(&mut p, &entry("pic.raw", true, 0));
    assert_eq!(n, "1970-01-01.raw");
}

#[test]
fn out_of_range_timestamp_is_fatal() {
    let mut p = Planner::new(vec!["pic.jpg".to_string()]);
    assert_eq!(
        p.process_entry(&entry("pic.jpg", true, i64::MAX)).unwrap_err(),
        Error::MetadataError
    );
    assert_eq!(p.count(), 0);
    assert!(p.contains_name(&"pic.jpg".to_string()));
}

#[test]
fn file_already_bearing_its_canonical_name_is_stable() {
    // The probe passes over the file's own name, so a file already named
    // after its creation date stays put and is not counted.
    let mut p = Planner::new(vec!["2024-01-01.jpg".to_string()]);
    match p.process_entry(&entry("2024-01-01.jpg", true, NEW_YEAR_2024)).unwrap() {
        Outcome::AlreadyCanonical => {}
        other => panic!("expected the file to keep its name, got {:?}", other),
    }
    assert_eq!(p.count(), 0);
    assert!(p.contains_name(&"2024-01-01.jpg".to_string()));
}

#[test]
fn second_run_renames_nothing() {
    // First run: two colliding files get the canonical name and the _1
    // variant. Second run over the result: both keep their names and the
    // summary count is zero.
    let mut first = Planner::new(vec!["a.jpg".to_string(), "b.jpg".to_string()]);
    let (_, n1) = renamed_to(&mut first, &entry("a.jpg", true, NEW_YEAR_2024));
    let (_, n2) = renamed_to(&mut first, &entry("b.jpg", true, NEW_YEAR_2024));
    assert_eq!(n1, "2024-01-01.jpg");
    assert_eq!(n2, "2024-01-01_1.jpg");

    let mut second = Planner::new(vec![n1.clone(), n2.clone()]);
    for name in [&n1, &n2] {
        match second.process_entry(&entry(name, true, NEW_YEAR_2024)).unwrap() {
            Outcome::AlreadyCanonical => {}
            other => panic!("expected {} to keep its name, got {:?}", name, other),
        }
    }
    assert_eq!(second.count(), 0);
    assert!(second.contains_name(&n1));
    assert!(second.contains_name(&n2));
}

#[test]
fn higher_disambiguator_moves_down_when_free() {
    // A file named like a later candidate is not "already canonical":
    // the run resolves the smallest free disambiguator, which here is
    // the plain date name.
    let mut p = Planner::new(vec!["2024-01-01_5.jpg".to_string()]);
    let (_, n) = renamed_to(&mut p, &entry("2024-01-01_5.jpg", true, NEW_YEAR_2024));
    assert_eq!(n, "2024-01-01.jpg");
}

#[test]
fn disambiguated_file_is_stable_behind_its_siblings() {
    // "date_1" whose earlier candidate "date" is held by another file
    // resolves to its own name and stays.
    let mut p = Planner::new(vec![
        "2024-01-01.jpg".to_string(),
        "2024-01-01_1.jpg".to_string(),
    ]);
    match p.process_entry(&entry("2024-01-01_1.jpg", true, NEW_YEAR_2024)).unwrap() {
        Outcome::AlreadyCanonical => {}
        other => panic!("expected the file to keep its name, got {:?}", other),
    }
    assert_eq!(p.count(), 0);
}

#[test]
fn duplicate_listing_names_are_modeled_once() {
    let p = Planner::new(vec!["a.jpg".to_string(), "a.jpg".to_string()]);
    assert!(p.contains_name(&"a.jpg".to_string()));
    assert_eq!(p.count(), 0);
}

#[test]
fn disambiguator_passes_ten() {
    let mut names: Vec<String> = vec!["src0.png".to_string()];
    names.push("2024-01-01.png".to_string());
    for k in 1..=10 {
        names.push(format!("2024-01-01_{}.png", k));
    }
    let mut p = Planner::new(names);
    let (_, n) = renamed_to(&mut p, &entry("src0.png", true, NEW_YEAR_2024));
    assert_eq!(n, "2024-01-01_11.png");
}

#[test]
fn non_ascii_stems_are_handled() {
    let mut p = Planner::new(vec!["фото праздника.JPG".to_string()]);
    let (o, n) = renamed_to(&mut p, &entry("фото праздника.JPG", true, NEW_YEAR_2024));
    assert_eq!(o, "фото праздника.JPG");
    assert_eq!(n, "2024-01-01.jpg");
}

#[test]
fn mixed_case_jpeg_keeps_the_long_token() {
    let mut p = Planner::new(vec!["scan.jPeG".to_string()]);
    let (_, n) = renamed_to(&mut p, &entry("scan.jPeG", true, NEW_YEAR_2024));
    assert_eq!(n, "2024-01-01.jpeg");
}

#[test]
fn success_message_names_both_files() {
    let m = image_renamer::planner::success_message("a.jpg", "2024-01-01.jpg");
    assert_eq!(m, "a.jpg renamed by 2024-01-01.jpg");
}

#[test]
fn summary_message_holds_the_count() {
    assert_eq!(image_renamer::planner::summary_message(0), "Total renamed images: 0");
    assert_eq!(image_renamer::planner::summary_message(5), "Total renamed images: 5");
    assert_eq!(image_renamer::planner::summary_message(42), "Total renamed images: 42");
}

#[test]
fn error_messages_match_the_reported_lines() {
    assert_eq!(Error::InvalidInput.message(), "Please provide a non empty path");
    assert_eq!(Error::InvalidPath.message(), "Invalid path directory");
    assert_eq!(Error::InvalidEntry.message(), "Invalid file");
}
