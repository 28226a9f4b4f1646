use aflak::charpoly::{checked_abs_sum_of_coefs, compute_abs_sum_of_coefs_of_characteristic_polynomial};
use aflak::download::{cache_names, start, step, DownloadAction, DownloadOutcome, DownloadState};
use aflak::export::ExportError;
use aflak::file_explorer::has_extension;
use aflak::roi::ROI;

#[test]
fn roi_whole_image_row_by_row() {
    let all = ROI::All;
    assert_eq!(all.datalen(), 0);
    assert_eq!(
        all.filter((2, 2)),
        vec![((0, 0), (0, 0)), ((1, 0), (0, 1)), ((0, 1), (1, 0)), ((1, 1), (1, 1))]
    );
    // Two rows of three columns: pixel (i, j) is column i of row j.
    assert_eq!(
        all.filter((2, 3)),
        vec![((0, 0), (0, 0)), ((1, 0), (0, 1)), ((2, 0), (0, 2)), ((0, 1), (1, 0)), ((1, 1), (1, 1)), ((2, 1), (1, 2))]
    );
    assert_eq!(all.filter((0, 4)), vec![]);
    assert_eq!(
        all.filter_upside_down((2, 3)),
        vec![((0, 0), (0, 0)), ((1, 0), (1, 0)), ((0, 1), (0, 1)), ((1, 1), (1, 1)), ((0, 2), (0, 2)), ((1, 2), (1, 2))]
    );
}

#[test]
fn roi_pixel_list_inside_image() {
    let roi = ROI::PixelList(vec![(1, 0), (5, 0), (0, 1), (2, 1)]);
    assert_eq!(roi.datalen(), 4);
    // An image of 2 rows and 3 columns: pixel (i, j) is read at row j, column i.
    assert_eq!(roi.filter((2, 3)), vec![((1, 0), (0, 1)), ((0, 1), (1, 0)), ((2, 1), (1, 2))]);
    assert_eq!(roi.filter_upside_down((2, 3)), vec![((1, 0), (1, 1)), ((0, 1), (0, 0)), ((2, 1), (0, 2))]);
}

#[test]
fn export_error_messages() {
    let e = ExportError::NotImplemented("Cannot copy FITS file.");
    assert_eq!(e.to_string(), "Not implemented: Cannot copy FITS file.");
    let io = std::io::Error::new(std::io::ErrorKind::Other, "disk full");
    let e = ExportError::from(io);
    assert!(matches!(e, ExportError::IOError(_)));
    assert_eq!(e.to_string(), "disk full");
}

#[test]
fn characteristic_polynomial_sums() {
    // Permutations in Heap's order: (0, 1) then (1, 0).
    // (0, 1): -1 * -1 = 1, two -1 entries, first term counted: -1 into sum 2.
    // (1, 0): 2 * 3 = 6, no -1 entry, second term: +6 into sum 0.
    assert_eq!(compute_abs_sum_of_coefs_of_characteristic_polynomial(2, 2, &vec![-1, 2, 3, -1]), Some(7));
    assert_eq!(compute_abs_sum_of_coefs_of_characteristic_polynomial(2, 3, &vec![1, 2, 3, 4, 5, 6]), None);
    assert_eq!(compute_abs_sum_of_coefs_of_characteristic_polynomial(0, 0, &vec![]), Some(1));
    assert_eq!(compute_abs_sum_of_coefs_of_characteristic_polynomial(1, 1, &vec![5]), Some(5));
}

#[test]
fn characteristic_polynomial_zero_terms_skipped() {
    // (0, 1): 1 * 4 = 4, first term: -4. (1, 0): entry (0, 1) is 0: skipped.
    assert_eq!(compute_abs_sum_of_coefs_of_characteristic_polynomial(2, 2, &vec![1, 0, 3, 4]), Some(4));
}

#[test]
fn characteristic_polynomial_overflow_detected() {
    let big = i32::MAX;
    assert_eq!(checked_abs_sum_of_coefs(2, 2, &vec![big, 2, 2, big]), None);
    assert_eq!(checked_abs_sum_of_coefs(2, 2, &vec![-1, 2, 3, -1]), Some(Some(7)));
    assert_eq!(checked_abs_sum_of_coefs(1, 2, &vec![1, 2]), Some(None));
}

fn run(answers: &[bool]) -> Vec<DownloadAction> {
    let (mut state, mut action) = start();
    let mut actions = vec![action];
    for &ok in answers {
        let (s, a) = step(state, ok);
        state = s;
        action = a;
        actions.push(action);
    }
    assert_eq!(state, DownloadState::Finished);
    actions
}

#[test]
fn download_from_scratch() {
    let actions = run(&[false, true, true, false, false, true, true, true, true]);
    assert_eq!(
        actions,
        vec![
            DownloadAction::CheckDirExists,
            DownloadAction::CreateDir,
            DownloadAction::CheckIsDir,
            DownloadAction::CheckFile,
            DownloadAction::CheckPartial,
            DownloadAction::CreatePartial,
            DownloadAction::Fetch,
            DownloadAction::CopyBody,
            DownloadAction::Rename,
            DownloadAction::Finish(DownloadOutcome::Ready),
        ]
    );
}

#[test]
fn download_cached_and_failures() {
    assert_eq!(run(&[true, true, true]).last(), Some(&DownloadAction::Finish(DownloadOutcome::Ready)));
    assert_eq!(run(&[false, false]).last(), Some(&DownloadAction::Finish(DownloadOutcome::CreateDirFailed)));
    assert_eq!(run(&[true, false]).last(), Some(&DownloadAction::Finish(DownloadOutcome::NotDir)));
    assert_eq!(run(&[true, true, false, false, false]).last(), Some(&DownloadAction::Finish(DownloadOutcome::CreatePartialFailed)));
    assert_eq!(run(&[true, true, false, false, true, false]).last(), Some(&DownloadAction::Finish(DownloadOutcome::FetchFailed)));
    assert_eq!(run(&[true, true, false, false, true, true, false]).last(), Some(&DownloadAction::Finish(DownloadOutcome::CopyFailed)));
    assert_eq!(run(&[true, true, false, false, true, true, true, false]).last(), Some(&DownloadAction::Finish(DownloadOutcome::RenameFailed)));
}

#[test]
fn download_waits_for_other_download() {
    let actions = run(&[true, true, false, true, false, true, false, true, true]);
    assert_eq!(
        &actions[3..9],
        &[
            DownloadAction::CheckPartial,
            DownloadAction::CheckFile,
            DownloadAction::Sleep,
            DownloadAction::CheckFile,
            DownloadAction::Sleep,
            DownloadAction::CheckFile,
        ][..]
    );
    assert_eq!(actions.last(), Some(&DownloadAction::Finish(DownloadOutcome::Ready)));
}

#[test]
fn download_cache_names() {
    let (name, partial) = cache_names("https://example.org/a.fits");
    assert!(!name.is_empty());
    assert!(name.chars().all(|c| c.is_ascii_hexdigit() && !c.is_ascii_uppercase()));
    assert_eq!(partial, format!("{}.download", name));
    let builder = std::hash::BuildHasherDefault::<std::collections::hash_map::DefaultHasher>::default();
    let h = std::hash::BuildHasher::hash_one(&builder, "https://example.org/a.fits");
    assert_eq!(name, format!("{:x}", h));
    let (again, _) = cache_names("https://example.org/a.fits");
    assert_eq!(name, again);
    let (other, _) = cache_names("https://example.org/b.fits");
    assert_ne!(name, other);
}

#[test]
fn file_extensions() {
    let exts = vec!["fits".to_owned(), "fit".to_owned()];
    assert!(has_extension("data/cube.FITS", &exts));
    assert!(has_extension("cube.fit", &exts));
    assert!(!has_extension("cube.txt", &exts));
    assert!(!has_extension("fits", &exts));
    assert!(!has_extension(".fits", &exts));
    assert!(has_extension("/data/x.fits", &exts));
    assert!(has_extension("/data/x.Fit/", &exts));
    assert!(has_extension("data//x.fits/.", &exts));
    assert!(!has_extension("/data/x.fits/..", &exts));
    assert!(!has_extension("/data.fits/x", &exts));
    assert!(!has_extension("/data/.fits", &exts));
    assert!(has_extension("/data/..fits", &exts));
}
