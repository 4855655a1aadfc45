use file_organizer::{
    decide, decimal_string, destination, is_image_file, local_date, settled_outcome, year_string,
    CivilDate, Decision, Entry, EntryKind, Failure, Outcome, Planned, Stamp, Summary, Traversal,
};

/// 2024-03-05 00:00:00 UTC.
const MARCH_5_2024: u64 = 1_709_596_800;
/// 2024-03-05 12:00:00 UTC.
const MARCH_5_2024_NOON: u64 = 1_709_640_000;

fn path(parts: &[&str]) -> Vec<String> {
    parts.iter().map(|p| p.to_string()).collect()
}

fn file(name: &str, modified: Stamp) -> Entry {
    Entry { name: name.to_string(), kind: EntryKind::File, modified }
}

fn dir(name: &str) -> Entry {
    Entry { name: name.to_string(), kind: EntryKind::Directory, modified: Stamp::Unreadable }
}

/// Runs a traversal to the end, answering each listing from `tree`; returns
/// the plan and the directories listed, in order.
fn run(
    recursive: bool,
    offset: i32,
    tree: &[(Vec<String>, Result<Vec<Entry>, ()>)],
) -> (Vec<Planned>, Vec<Vec<String>>) {
    let mut t = Traversal::new(recursive, offset);
    let mut listed = Vec::new();
    while let Some(d) = t.next_directory() {
        let listing = tree
            .iter()
            .find(|(p, _)| *p == d)
            .map(|(_, l)| l.clone())
            .unwrap_or(Ok(Vec::new()));
        listed.push(d);
        t.directory_listed(listing);
    }
    assert!(t.is_done());
    (t.plan().clone(), listed)
}

fn relocation_of(plan: &[Planned], from: &[&str]) -> Option<Vec<String>> {
    plan.iter().find(|p| p.from == path(from)).and_then(|p| match &p.decision {
        Decision::Relocate(to) => Some(to.clone()),
        _ => None,
    })
}

fn decision_of<'a>(plan: &'a [Planned], from: &[&str]) -> &'a Decision {
    &plan.iter().find(|p| p.from == path(from)).expect("no record").decision
}

#[test]
fn recognized_extensions() {
    for name in ["a.jpg", "a.jpeg", "a.tiff", "a.JPG", "a.JPEG", "a.TIFF", "a.mov", "a.MOV"] {
        assert!(is_image_file(name), "{}", name);
    }
    assert!(is_image_file("archive.tar.jpeg"));
    assert!(is_image_file("..jpg"));
}

#[test]
fn unrecognized_names() {
    for name in ["notes.txt", "a.Jpg", "a.mOV", "a.tif", "jpg", ".jpg", "a.", "", "a.jpg.txt", "a.jpgx"] {
        assert!(!is_image_file(name), "{}", name);
    }
}

#[test]
fn decimal_rendering() {
    assert_eq!(decimal_string(0), "0");
    assert_eq!(decimal_string(7), "7");
    assert_eq!(decimal_string(10), "10");
    assert_eq!(decimal_string(305), "305");
    assert_eq!(decimal_string(u32::MAX), "4294967295");
    assert_eq!(year_string(2024), "2024");
    assert_eq!(year_string(0), "0");
    assert_eq!(year_string(-45), "-45");
    assert_eq!(year_string(i32::MIN), "-2147483648");
}

#[test]
fn local_date_from_stamp() {
    let d = |year, month, day| Ok(CivilDate { year, month, day });
    assert_eq!(local_date(Stamp::Since(MARCH_5_2024_NOON), 0), d(2024, 3, 5));
    assert_eq!(local_date(Stamp::Since(0), 0), d(1970, 1, 1));
    assert_eq!(local_date(Stamp::Since(0), -1), d(1969, 12, 31));
    assert_eq!(local_date(Stamp::Since(MARCH_5_2024 - 1), 0), d(2024, 3, 4));
    assert_eq!(local_date(Stamp::Since(MARCH_5_2024 - 1), 3600), d(2024, 3, 5));
    assert_eq!(local_date(Stamp::Since(MARCH_5_2024), -3600), d(2024, 3, 4));
    assert_eq!(local_date(Stamp::Since(1_709_251_199), 0), d(2024, 2, 29));
}

#[test]
fn local_date_failures() {
    assert_eq!(local_date(Stamp::Unreadable, 0), Err(Failure::MetadataUnavailable));
    assert_eq!(local_date(Stamp::BeforeEpoch, 0), Err(Failure::TimeConversionError));
    assert_eq!(local_date(Stamp::Since(u64::MAX), 0), Err(Failure::TimeConversionError));
    assert_eq!(local_date(Stamp::Since(i64::MAX as u64), 0), Err(Failure::TimeConversionError));
    assert_eq!(
        local_date(Stamp::Since(i64::MAX as u64), i32::MAX),
        Err(Failure::TimeConversionError)
    );
}

#[test]
fn destination_path() {
    let date = CivilDate { year: 2024, month: 3, day: 5 };
    assert_eq!(destination(&path(&["A"]), date, "photo.mov"), path(&["A", "2024", "3", "5", "photo.mov"]));
    assert_eq!(destination(&Vec::new(), date, "x.jpg"), path(&["2024", "3", "5", "x.jpg"]));
    let late = CivilDate { year: 1999, month: 12, day: 31 };
    assert_eq!(destination(&Vec::new(), late, "x.jpg"), path(&["1999", "12", "31", "x.jpg"]));
}

#[test]
fn decide_per_entry() {
    let root = Vec::new();
    let stamp = Stamp::Since(MARCH_5_2024_NOON);
    match decide(&root, &file("photo.jpg", stamp), 0) {
        Decision::Relocate(to) => assert_eq!(to, path(&["2024", "3", "5", "photo.jpg"])),
        other => panic!("{:?}", other),
    }
    assert!(matches!(decide(&root, &file("notes.txt", stamp), 0), Decision::Ignore));
    let link = Entry { name: "x.jpg".to_string(), kind: EntryKind::Other, modified: stamp };
    assert!(matches!(decide(&root, &link, 0), Decision::Ignore));
    assert!(matches!(
        decide(&root, &file("x.jpg", Stamp::BeforeEpoch), 0),
        Decision::Skip(Failure::TimeConversionError)
    ));
    assert!(matches!(
        decide(&path(&["2024", "3", "5"]), &file("x.jpg", stamp), 0),
        Decision::AlreadyPlaced
    ));
    assert!(matches!(
        decide(&path(&["2024", "3", "6"]), &file("x.jpg", stamp), 0),
        Decision::Relocate(_)
    ));
}

#[test]
fn flat_pass_moves_only_recognized_files() {
    let tree = vec![(
        Vec::new(),
        Ok(vec![file("photo.jpg", Stamp::Since(MARCH_5_2024_NOON)), file("notes.txt", Stamp::Since(MARCH_5_2024_NOON))]),
    )];
    let (plan, listed) = run(false, 0, &tree);
    assert_eq!(listed, vec![Vec::<String>::new()]);
    assert_eq!(plan.len(), 2);
    assert_eq!(relocation_of(&plan, &["photo.jpg"]), Some(path(&["2024", "3", "5", "photo.jpg"])));
    assert!(matches!(decision_of(&plan, &["notes.txt"]), Decision::Ignore));
}

#[test]
fn flat_pass_does_not_descend() {
    let stamp = Stamp::Since(MARCH_5_2024_NOON);
    let tree = vec![
        (Vec::new(), Ok(vec![dir("A"), file("x.jpg", stamp)])),
        (path(&["A"]), Ok(vec![file("y.jpg", stamp)])),
    ];
    let (plan, listed) = run(false, 0, &tree);
    assert_eq!(listed.len(), 1);
    assert_eq!(plan.len(), 1);
    assert_eq!(relocation_of(&plan, &["x.jpg"]), Some(path(&["2024", "3", "5", "x.jpg"])));
}

#[test]
fn recursive_pass_nests_under_parent() {
    let tree = vec![
        (Vec::new(), Ok(vec![dir("A")])),
        (path(&["A"]), Ok(vec![file("photo.mov", Stamp::Since(MARCH_5_2024_NOON))])),
    ];
    let (plan, _) = run(true, 0, &tree);
    assert_eq!(plan.len(), 1);
    assert_eq!(
        relocation_of(&plan, &["A", "photo.mov"]),
        Some(path(&["A", "2024", "3", "5", "photo.mov"]))
    );
}

#[test]
fn recursive_pass_lists_each_directory_once() {
    let stamp = Stamp::Since(MARCH_5_2024_NOON);
    let tree = vec![
        (Vec::new(), Ok(vec![dir("A")])),
        (path(&["A"]), Ok(vec![file("img1.jpg", stamp), file("img2.jpg", stamp)])),
    ];
    let (plan, listed) = run(true, 0, &tree);
    assert_eq!(listed, vec![Vec::new(), path(&["A"])]);
    let moves: Vec<_> = plan.iter().filter(|p| matches!(p.decision, Decision::Relocate(_))).collect();
    assert_eq!(moves.len(), 2);
    let to1 = relocation_of(&plan, &["A", "img1.jpg"]).unwrap();
    let to2 = relocation_of(&plan, &["A", "img2.jpg"]).unwrap();
    assert_eq!(to1, path(&["A", "2024", "3", "5", "img1.jpg"]));
    assert_eq!(to2, path(&["A", "2024", "3", "5", "img2.jpg"]));
    assert_eq!(to1[..4], to2[..4]);
}

#[test]
fn second_recursive_pass_moves_nothing() {
    let stamp = Stamp::Since(MARCH_5_2024_NOON);
    let tree = vec![
        (Vec::new(), Ok(vec![dir("A"), file("notes.txt", stamp)])),
        (path(&["A"]), Ok(vec![dir("2024")])),
        (path(&["A", "2024"]), Ok(vec![dir("3")])),
        (path(&["A", "2024", "3"]), Ok(vec![dir("5")])),
        (path(&["A", "2024", "3", "5"]), Ok(vec![file("img1.jpg", stamp), file("img2.jpg", stamp)])),
    ];
    let (plan, listed) = run(true, 0, &tree);
    assert_eq!(listed.len(), 5);
    assert!(plan.iter().all(|p| !matches!(p.decision, Decision::Relocate(_))));
    assert!(matches!(decision_of(&plan, &["A", "2024", "3", "5", "img1.jpg"]), Decision::AlreadyPlaced));
    assert!(matches!(decision_of(&plan, &["A", "2024", "3", "5", "img2.jpg"]), Decision::AlreadyPlaced));
}

#[test]
fn second_flat_pass_moves_nothing() {
    let stamp = Stamp::Since(MARCH_5_2024_NOON);
    let tree = vec![(Vec::new(), Ok(vec![dir("2024"), file("notes.txt", stamp)]))];
    let (plan, _) = run(false, 0, &tree);
    assert!(plan.iter().all(|p| !matches!(p.decision, Decision::Relocate(_))));
}

#[test]
fn same_date_shares_destination_directory() {
    let tree = vec![(
        Vec::new(),
        Ok(vec![file("a.jpg", Stamp::Since(MARCH_5_2024)), file("b.MOV", Stamp::Since(MARCH_5_2024 + 86_399))]),
    )];
    let (plan, _) = run(false, 0, &tree);
    let a = relocation_of(&plan, &["a.jpg"]).unwrap();
    let b = relocation_of(&plan, &["b.MOV"]).unwrap();
    assert_eq!(a[..3], b[..3]);
    assert_eq!(a[..3].to_vec(), path(&["2024", "3", "5"]));
}

#[test]
fn unreadable_time_is_skipped_and_others_move() {
    let tree = vec![(
        Vec::new(),
        Ok(vec![file("bad.jpg", Stamp::Unreadable), file("good.jpg", Stamp::Since(MARCH_5_2024_NOON))]),
    )];
    let (plan, _) = run(false, 0, &tree);
    assert!(matches!(decision_of(&plan, &["bad.jpg"]), Decision::Skip(Failure::MetadataUnavailable)));
    assert_eq!(relocation_of(&plan, &["good.jpg"]), Some(path(&["2024", "3", "5", "good.jpg"])));
}

#[test]
fn unreadable_directory_skips_only_its_subtree() {
    let stamp = Stamp::Since(MARCH_5_2024_NOON);
    let tree = vec![
        (Vec::new(), Ok(vec![dir("A"), dir("B")])),
        (path(&["A"]), Err(())),
        (path(&["B"]), Ok(vec![file("x.jpg", stamp)])),
    ];
    let (plan, _) = run(true, 0, &tree);
    assert!(matches!(decision_of(&plan, &["A"]), Decision::Skip(Failure::DirectoryReadFailure)));
    assert_eq!(relocation_of(&plan, &["B", "x.jpg"]), Some(path(&["B", "2024", "3", "5", "x.jpg"])));
}

#[test]
fn offset_changes_the_date() {
    let tree = vec![(Vec::new(), Ok(vec![file("late.jpg", Stamp::Since(MARCH_5_2024 - 60))]))];
    let (utc, _) = run(false, 0, &tree);
    let (east, _) = run(false, 3600, &tree);
    assert_eq!(relocation_of(&utc, &["late.jpg"]), Some(path(&["2024", "3", "4", "late.jpg"])));
    assert_eq!(relocation_of(&east, &["late.jpg"]), Some(path(&["2024", "3", "5", "late.jpg"])));
}

#[test]
fn summary_counts_outcomes() {
    let mut s = Summary::new();
    s.record(Outcome::Moved);
    s.record(Outcome::Moved);
    s.record(Outcome::Skipped);
    s.record(Outcome::Failed(Failure::MoveFailure));
    assert_eq!(s, Summary { moved: 2, skipped: 1, failed: 1 });
    let mut full = Summary { moved: u64::MAX, skipped: 0, failed: 0 };
    full.record(Outcome::Moved);
    assert_eq!(full.moved, u64::MAX);
}

#[test]
fn settled_outcomes() {
    assert_eq!(settled_outcome(&Decision::Ignore), Some(Outcome::Skipped));
    assert_eq!(settled_outcome(&Decision::AlreadyPlaced), Some(Outcome::Skipped));
    assert_eq!(
        settled_outcome(&Decision::Skip(Failure::TimeConversionError)),
        Some(Outcome::Failed(Failure::TimeConversionError))
    );
    assert_eq!(settled_outcome(&Decision::Relocate(path(&["x"]))), None);
}

#[test]
fn place_by_date() {
    let date = CivilDate { year: 2024, month: 3, day: 5 };
    match file_organizer::place(&path(&["A"]), "img1.jpg", date) {
        Decision::Relocate(to) => assert_eq!(to, path(&["A", "2024", "3", "5", "img1.jpg"])),
        other => panic!("{:?}", other),
    }
    assert!(matches!(
        file_organizer::place(&path(&["A", "2024", "3", "5"]), "img1.jpg", date),
        Decision::AlreadyPlaced
    ));
    assert!(matches!(
        file_organizer::place(&path(&["2024", "3", "5"]), "img1.jpg", date),
        Decision::AlreadyPlaced
    ));
    assert!(matches!(
        file_organizer::place(&path(&["2024", "03", "05"]), "img1.jpg", date),
        Decision::Relocate(_)
    ));
    assert!(matches!(file_organizer::place(&path(&["3", "5"]), "img1.jpg", date), Decision::Relocate(_)));
}
