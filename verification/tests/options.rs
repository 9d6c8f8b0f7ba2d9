use photodedupe::config::{
    collate_file_list_any_source, extract_width_and_height, gather_file_list_from_cmd_line,
    get_default_config_options, make_image_paths, set_config_options, Args,
};
use photodedupe::imagehash::ImageHashAV;

fn no_args() -> Args {
    Args {
        duplicates: false,
        uniques: false,
        all: false,
        compare_dir: None,
        always_mark_duplicates: false,
        ignore_low_res: None,
        any_file: false,
        force_colour_diff_only: false,
        num_threads: None,
        colour_diff_threshold: None,
        debug: false,
        dir_or_file: None,
    }
}

/// A well-formed "widthxheight" string parses into its two integers.
#[test]
fn test_extract_width_and_height() {
    assert_eq!(extract_width_and_height("300x200"), Some((300, 200)));
    assert_eq!(extract_width_and_height("100x100"), Some((100, 100)));
    assert_eq!(extract_width_and_height("16x4294967295"), Some((16, 4294967295)));
}

/// Anything but exactly two integers joined by one 'x' is rejected.
#[test]
fn test_extract_width_and_height_malformed() {
    assert_eq!(extract_width_and_height(""), None);
    assert_eq!(extract_width_and_height("100"), None);
    assert_eq!(extract_width_and_height("100x"), None);
    assert_eq!(extract_width_and_height("x100"), None);
    assert_eq!(extract_width_and_height("100x200x300"), None);
    assert_eq!(extract_width_and_height("abcxdef"), None);
    assert_eq!(extract_width_and_height("100 x 200"), None);
    assert_eq!(extract_width_and_height("100x-200"), None);
    // A value too large for 32 bits fails the parse.
    assert_eq!(extract_width_and_height("4294967296x16"), None);
    // A leading plus sign is accepted, as integer parsing has it.
    assert_eq!(extract_width_and_height("+100x200"), Some((100, 200)));
    assert_eq!(extract_width_and_height("+x200"), None);
}

/// The defaults: known extensions only, default thresholds, four
/// threads, no comparison, no minimum resolution.
#[test]
fn test_default_config() {
    let c = get_default_config_options();
    assert_eq!(c.colour_difference_threshold, ImageHashAV::DEFAULT_COLOUR_DIFF_THRESHOLD);
    assert_eq!(c.colour_difference_threshold, 256);
    assert_eq!(c.std_dev_threshold, ImageHashAV::DEFAULT_STD_DEV_THRESHOLD);
    assert_eq!(c.std_dev_threshold, 3000);
    assert_eq!(c.alg_flip_threshold, 20000);
    assert!(!c.alg_colour_diff_only);
    assert!(c.only_known_file_extensions);
    assert!(!c.only_list_duplicates);
    assert!(!c.only_list_uniques);
    assert!(!c.list_all);
    assert_eq!(c.num_threads, 4);
    assert!(!c.am_comparing);
    assert!(!c.always_mark_duplicates);
    assert_eq!(c.min_width, 0);
    assert_eq!(c.min_height, 0);
}

/// The switches land in the configuration fields.
#[test]
fn test_set_config_options_flags() {
    let mut args = no_args();
    args.duplicates = true;
    args.any_file = true;
    args.force_colour_diff_only = true;
    args.num_threads = Some(8);
    args.colour_diff_threshold = Some(1000);
    let c = set_config_options(&args, false).unwrap();
    assert!(c.only_list_duplicates);
    assert!(!c.only_known_file_extensions);
    assert!(c.alg_colour_diff_only);
    assert_eq!(c.num_threads, 8);
    assert_eq!(c.colour_difference_threshold, 1000);
}

/// A thread count of zero is a fatal configuration error.
#[test]
fn test_set_config_options_zero_threads() {
    let mut args = no_args();
    args.num_threads = Some(0);
    assert!(set_config_options(&args, false).is_err());
    args.num_threads = Some(1);
    assert!(set_config_options(&args, false).is_ok());
}

/// The colour threshold is capped at 49000 inclusive.
#[test]
fn test_set_config_options_colour_range() {
    let mut args = no_args();
    args.colour_diff_threshold = Some(49001);
    assert!(set_config_options(&args, false).is_err());
    args.colour_diff_threshold = Some(49000);
    let c = set_config_options(&args, false).unwrap();
    assert_eq!(c.colour_difference_threshold, 49000);
}

/// A comparison path that does not exist is a fatal configuration error;
/// an existing one switches comparison mode on.
#[test]
fn test_set_config_options_compare_dir() {
    let mut args = no_args();
    args.compare_dir = Some("new_photos".to_string());
    assert!(set_config_options(&args, false).is_err());
    let c = set_config_options(&args, true).unwrap();
    assert!(c.am_comparing);
    assert_eq!(c.compare_dir, "new_photos");
}

/// The minimum resolution must be well formed and at least 16 pixels a
/// side.
#[test]
fn test_set_config_options_min_resolution() {
    let mut args = no_args();
    args.ignore_low_res = Some("300x200".to_string());
    let c = set_config_options(&args, false).unwrap();
    assert_eq!(c.min_width, 300);
    assert_eq!(c.min_height, 200);

    args.ignore_low_res = Some("10x10".to_string());
    assert!(set_config_options(&args, false).is_err());

    args.ignore_low_res = Some("300by200".to_string());
    assert!(set_config_options(&args, false).is_err());
}

/// Command-line paths win over standard input; standard input is the
/// fallback; neither yields nothing.
#[test]
fn test_collate_file_list_any_source() {
    let mut args = no_args();
    args.dir_or_file = Some(vec!["photos".to_string(), "more".to_string()]);
    let picked = collate_file_list_any_source(&args, vec!["ignored".to_string()]).unwrap();
    assert_eq!(picked, vec!["photos".to_string(), "more".to_string()]);

    let from_stdin =
        collate_file_list_any_source(&no_args(), vec!["a.png".to_string(), "b.png".to_string()])
            .unwrap();
    assert_eq!(from_stdin, vec!["a.png".to_string(), "b.png".to_string()]);

    assert!(collate_file_list_any_source(&no_args(), Vec::new()).is_none());
}

/// The command-line list is handed back as given, and an empty one
/// counts as absent.
#[test]
fn test_gather_file_list_from_cmd_line() {
    assert!(gather_file_list_from_cmd_line(&no_args()).is_none());

    let mut args = no_args();
    args.dir_or_file = Some(Vec::new());
    assert!(gather_file_list_from_cmd_line(&args).is_none());

    args.dir_or_file = Some(vec!["one".to_string()]);
    assert_eq!(gather_file_list_from_cmd_line(&args), Some(vec!["one".to_string()]));
}

/// Ingestion records carry the comparison flags: the override only for
/// comparison-set paths when resolution is to be ignored.
#[test]
fn test_make_image_paths() {
    let paths = vec!["a.png".to_string(), "b.png".to_string()];
    let plain = make_image_paths(paths.clone(), false, true);
    assert_eq!(plain.len(), 2);
    assert_eq!(plain[0].fpath, "a.png");
    assert!(!plain[0].is_compare_dir);
    assert!(!plain[0].always_mark_dupe_compare);

    let compared = make_image_paths(paths, true, true);
    assert!(compared[1].is_compare_dir);
    assert!(compared[1].always_mark_dupe_compare);

    let compared_no_mark = make_image_paths(vec!["c.png".to_string()], true, false);
    assert!(compared_no_mark[0].is_compare_dir);
    assert!(!compared_no_mark[0].always_mark_dupe_compare);
}
