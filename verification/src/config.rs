use vstd::prelude::*;
use vstd::string::StrSliceExecFns;
use crate::imagehash::{ConfigOptions, ImageHashAV, ImagePath};

verus! {

/// The command-line switches the configuration is built from, as plain
/// values: flag booleans, optional numeric overrides, the optional
/// comparison path, the optional minimum-resolution string, and the file
/// or directory arguments.
pub struct Args {
    pub duplicates: bool,
    pub uniques: bool,
    pub all: bool,
    pub compare_dir: Option<String>,
    pub always_mark_duplicates: bool,
    pub ignore_low_res: Option<String>,
    pub any_file: bool,
    pub force_colour_diff_only: bool,
    pub num_threads: Option<u32>,
    pub colour_diff_threshold: Option<u32>,
    pub debug: bool,
    pub dir_or_file: Option<Vec<String>>,
}

/// An ASCII decimal digit.
pub open spec fn is_ascii_digit(ch: char) -> bool {
    48 <= ch as u32 <= 57
}

/// The value of a string of decimal digits, most significant first.
pub open spec fn digits_val(s: Seq<char>) -> int
    decreases s.len(),
{
    if s.len() == 0 {
        0
    } else {
        digits_val(s.drop_last()) * 10 + (s.last() as u32 - 48)
    }
}

/// Every character is an ASCII decimal digit.
pub open spec fn all_digits(s: Seq<char>) -> bool {
    forall|i: int| 0 <= i < s.len() ==> is_ascii_digit(s[i])
}

/// The digits of an integer literal: an optional leading plus sign is
/// dropped.
pub open spec fn digits_body(s: Seq<char>) -> Seq<char> {
    if s.len() > 0 && s[0] == '+' {
        s.drop_first()
    } else {
        s
    }
}

/// What parsing a decimal unsigned 32-bit integer from a string comes
/// to: an optional plus sign, then at least one digit, and a value that
/// fits.
pub open spec fn parse_u32_spec(s: Seq<char>) -> Option<u32> {
    let b = digits_body(s);
    if b.len() == 0 || !all_digits(b) || digits_val(b) > u32::MAX {
        None
    } else {
        Some(digits_val(b) as u32)
    }
}

/// How often `ch` occurs in the string.
pub open spec fn count_char(s: Seq<char>, ch: char) -> int
    decreases s.len(),
{
    if s.len() == 0 {
        0
    } else {
        count_char(s.drop_last(), ch) + if s.last() == ch {
            1int
        } else {
            0int
        }
    }
}

/// What parsing a "widthxheight" string comes to: the string must hold
/// exactly one 'x', and the parts either side of it must each parse as
/// an unsigned 32-bit integer.
pub open spec fn parse_wh_spec(s: Seq<char>) -> Option<(u32, u32)> {
    if count_char(s, 'x') == 1 {
        let i = choose|i: int| 0 <= i < s.len() && s[i] == 'x';
        match (parse_u32_spec(s.subrange(0, i)), parse_u32_spec(
            s.subrange(i + 1, s.len() as int),
        )) {
            (Some(w), Some(h)) => Some((w, h)),
            _ => None,
        }
    } else {
        None
    }
}

/// The occurrence count never exceeds the length and never goes
/// negative.
proof fn lemma_count_char_bounds(s: Seq<char>, ch: char)
    ensures
        0 <= count_char(s, ch) <= s.len(),
    decreases s.len(),
{
    if s.len() > 0 {
        lemma_count_char_bounds(s.drop_last(), ch);
    }
}

/// Counting a prefix extended by one character.
proof fn lemma_count_char_step(s: Seq<char>, ch: char, i: int)
    requires
        0 <= i < s.len(),
    ensures
        count_char(s.subrange(0, i + 1), ch) == count_char(s.subrange(0, i), ch) + if s[i] == ch {
            1int
        } else {
            0int
        },
{
    let p = s.subrange(0, i + 1);
    assert(p.drop_last() =~= s.subrange(0, i));
    assert(p.last() == s[i]);
}

/// If a character occurs in the string, the count is positive.
proof fn lemma_count_char_occurrence(s: Seq<char>, ch: char, i: int)
    requires
        0 <= i < s.len(),
        s[i] == ch,
    ensures
        count_char(s, ch) >= 1,
    decreases s.len(),
{
    if i == s.len() - 1 {
        lemma_count_char_bounds(s.drop_last(), ch);
    } else {
        assert(s.drop_last()[i] == ch);
        lemma_count_char_occurrence(s.drop_last(), ch, i);
    }
}

/// With exactly one occurrence, any two positions that hold the
/// character are the same position.
proof fn lemma_count_char_unique(s: Seq<char>, ch: char, i: int, j: int)
    requires
        count_char(s, ch) == 1,
        0 <= i < s.len(),
        0 <= j < s.len(),
        s[i] == ch,
        s[j] == ch,
    ensures
        i == j,
    decreases s.len(),
{
    if i != j {
        let hi = if i > j {
            i
        } else {
            j
        };
        let lo = if i > j {
            j
        } else {
            i
        };
        if hi == s.len() - 1 {
            lemma_count_char_occurrence(s.drop_last(), ch, lo);
        } else {
            assert(s.drop_last()[lo] == ch && s.drop_last()[hi] == ch);
            lemma_count_char_bounds(s.drop_last(), ch);
            lemma_count_char_occurrence(s.drop_last(), ch, lo);
            lemma_count_char_occurrence(s.drop_last(), ch, hi);
            lemma_count_char_unique(s.drop_last(), ch, lo, hi);
        }
    }
}

/// A digit string's value is non-negative.
proof fn lemma_digits_val_nonneg(s: Seq<char>)
    requires
        all_digits(s),
    ensures
        digits_val(s) >= 0,
    decreases s.len(),
{
    if s.len() > 0 {
        assert(all_digits(s.drop_last())) by {
            assert(forall|t: int| 0 <= t < s.len() - 1 ==> s.drop_last()[t] == s[t]);
        }
        lemma_digits_val_nonneg(s.drop_last());
    }
}

/// Extending a digit string never lowers its value: once a prefix is too
/// large for 32 bits, the whole string is.
proof fn lemma_digits_val_extend(s: Seq<char>, i: int)
    requires
        all_digits(s),
        0 <= i <= s.len(),
    ensures
        digits_val(s) >= digits_val(s.subrange(0, i)),
    decreases s.len() - i,
{
    if i == s.len() {
        assert(s.subrange(0, i) =~= s);
    } else {
        let p = s.subrange(0, i + 1);
        assert(p.drop_last() =~= s.subrange(0, i));
        assert(all_digits(s.subrange(0, i)));
        lemma_digits_val_nonneg(s.subrange(0, i));
        lemma_digits_val_extend(s, i + 1);
    }
}

/// Parse the character range [from, to) of the string as a decimal
/// unsigned 32-bit integer, as `parse_u32_spec` describes.
#[verifier::loop_isolation(false)]
fn parse_u32_range(s: &str, from: usize, to: usize) -> (r: Option<u32>)
    requires
        from <= to <= s@.len(),
    ensures
        r == parse_u32_spec(s@.subrange(from as int, to as int)),
{
    let ghost whole = s@.subrange(from as int, to as int);
    if from == to {
        return None;
    }
    let mut p = from;
    if s.get_char(from) == '+' {
        p = from + 1;
    }
    proof {
        assert(digits_body(whole) =~= s@.subrange(p as int, to as int));
    }
    let ghost body = s@.subrange(p as int, to as int);
    if p == to {
        return None;
    }
    let mut acc: u64 = 0;
    let mut i = p;
    while i < to
        invariant
            p <= i <= to <= s@.len(),
            body == s@.subrange(p as int, to as int),
            all_digits(body.subrange(0, i - p)),
            acc == digits_val(body.subrange(0, i - p)),
            acc <= u32::MAX,
        decreases to - i,
    {
        let c = s.get_char(i);
        let cv: u32 = c as u32;
        if cv < 48 || cv > 57 {
            proof {
                assert(body[i - p] == c);
                assert(!is_ascii_digit(body[i - p]));
                assert(!all_digits(body));
            }
            return None;
        }
        let d: u64 = (cv - 48) as u64;
        proof {
            let pre = body.subrange(0, i - p);
            let ext = body.subrange(0, i + 1 - p);
            assert(ext.drop_last() =~= pre);
            assert(ext.last() == body[i - p]);
            assert(digits_val(ext) == digits_val(pre) * 10 + (c as u32 - 48));
            assert(all_digits(ext)) by {
                assert(forall|t: int| 0 <= t < ext.len() - 1 ==> ext[t] == pre[t]);
            }
        }
        acc = acc * 10 + d;
        i = i + 1;
        proof {
            assert(acc == digits_val(body.subrange(0, i - p)));
        }
        if acc > 0xFFFF_FFFF {
            proof {
                if all_digits(body) {
                    lemma_digits_val_extend(body, i - p);
                    assert(digits_val(body) >= digits_val(body.subrange(0, i - p)));
                }
            }
            return None;
        }
    }
    proof {
        assert(body.subrange(0, to - p) =~= body);
    }
    Some(acc as u32)
}

/// Given a string of the form "widthxheight", extract the width and
/// height as integers; any other form yields nothing.
#[verifier::loop_isolation(false)]
pub fn extract_width_and_height(s: &str) -> (r: Option<(u32, u32)>)
    ensures
        r == parse_wh_spec(s@),
{
    let len = s.unicode_len();
    let mut cnt: usize = 0;
    let mut xi: usize = 0;
    let mut i: usize = 0;
    while i < len
        invariant
            i <= len,
            len == s@.len(),
            cnt == count_char(s@.subrange(0, i as int), 'x'),
            cnt <= i,
            cnt > 0 ==> xi < i && s@[xi as int] == 'x',
        decreases len - i,
    {
        let c = s.get_char(i);
        proof {
            lemma_count_char_step(s@, 'x', i as int);
        }
        if c == 'x' {
            if cnt == 0 {
                xi = i;
            }
            cnt = cnt + 1;
        }
        i = i + 1;
    }
    proof {
        assert(s@.subrange(0, len as int) =~= s@);
    }
    if cnt != 1 {
        return None;
    }
    proof {
        let ghost_i = choose|t: int| 0 <= t < s@.len() && s@[t] == 'x';
        lemma_count_char_unique(s@, 'x', xi as int, ghost_i);
    }
    let w = parse_u32_range(s, 0, xi);
    let h = parse_u32_range(s, xi + 1, len);
    match (w, h) {
        (Some(wv), Some(hv)) => Some((wv, hv)),
        _ => None,
    }
}

/// A command-line configuration options object with a set of reasonable
/// defaults: default thresholds, known file extensions only, four worker
/// threads, nothing compared, no minimum resolution.
pub fn get_default_config_options() -> (r: ConfigOptions)
    ensures
        r.colour_difference_threshold == ImageHashAV::DEFAULT_COLOUR_DIFF_THRESHOLD,
        r.std_dev_threshold == ImageHashAV::DEFAULT_STD_DEV_THRESHOLD,
        r.alg_flip_threshold == ImageHashAV::DEFAULT_ALG_FLIP_THRESHOLD,
        !r.alg_colour_diff_only,
        r.only_known_file_extensions,
        !r.only_list_duplicates,
        !r.only_list_uniques,
        !r.list_all,
        r.num_threads == 4,
        r.compare_dir@ == Seq::<char>::empty(),
        !r.am_comparing,
        !r.always_mark_duplicates,
        r.min_width == 0,
        r.min_height == 0,
{
    ConfigOptions {
        colour_difference_threshold: ImageHashAV::DEFAULT_COLOUR_DIFF_THRESHOLD,
        std_dev_threshold: ImageHashAV::DEFAULT_STD_DEV_THRESHOLD,
        alg_flip_threshold: ImageHashAV::DEFAULT_ALG_FLIP_THRESHOLD,
        alg_colour_diff_only: false,
        only_known_file_extensions: true,
        only_list_duplicates: false,
        only_list_uniques: false,
        list_all: false,
        num_threads: 4,
        compare_dir: String::new(),
        am_comparing: false,
        always_mark_duplicates: false,
        min_width: 0,
        min_height: 0,
    }
}

/// Every configuration-level validation the options must pass: a positive
/// thread count, a colour threshold within range, an existing comparison
/// path, and a well-formed minimum resolution of at least 16 pixels a
/// side.
pub open spec fn config_valid(matches: Args, compare_path_ok: bool) -> bool {
    &&& (matches.num_threads matches Some(n) ==> n >= 1)
    &&& (matches.colour_diff_threshold matches Some(ct) ==> ct <= 49000)
    &&& (matches.compare_dir is Some ==> compare_path_ok)
    &&& (matches.ignore_low_res matches Some(s) ==> parse_wh_spec(s@) matches Some(wh) && wh.0
        >= 16 && wh.1 >= 16)
}

/// Convert the command-line switches into the internal configuration.
///
/// `compare_path_ok` tells whether the path handed to the comparison
/// option exists as a directory or file; the caller checks that against
/// the file system. Validation failures are fatal: they yield an error
/// before any extraction work begins, exactly when `config_valid` fails.
pub fn set_config_options(matches: &Args, compare_path_ok: bool) -> (r: Result<
    ConfigOptions,
    String,
>)
    ensures
        r is Ok <==> config_valid(*matches, compare_path_ok),
        r matches Ok(c) ==> {
            &&& c.only_list_duplicates == matches.duplicates
            &&& c.only_list_uniques == matches.uniques
            &&& c.list_all == matches.all
            &&& c.alg_colour_diff_only == matches.force_colour_diff_only
            &&& c.always_mark_duplicates == matches.always_mark_duplicates
            &&& c.only_known_file_extensions == !matches.any_file
            &&& c.num_threads == (match matches.num_threads {
                Some(n) => n,
                None => 4u32,
            })
            &&& c.colour_difference_threshold == (match matches.colour_diff_threshold {
                Some(ct) => ct as u64,
                None => ImageHashAV::DEFAULT_COLOUR_DIFF_THRESHOLD,
            })
            &&& c.std_dev_threshold == ImageHashAV::DEFAULT_STD_DEV_THRESHOLD
            &&& c.alg_flip_threshold == ImageHashAV::DEFAULT_ALG_FLIP_THRESHOLD
            &&& c.am_comparing == matches.compare_dir is Some
            &&& c.compare_dir@ == (match matches.compare_dir {
                Some(d) => d@,
                None => Seq::<char>::empty(),
            })
            &&& (match matches.ignore_low_res {
                Some(s) => parse_wh_spec(s@) matches Some(wh) && c.min_width == wh.0
                    && c.min_height == wh.1,
                None => c.min_width == 0 && c.min_height == 0,
            })
        },
{
    let mut config = get_default_config_options();

    config.only_list_duplicates = matches.duplicates;
    config.only_list_uniques = matches.uniques;
    config.list_all = matches.all;
    config.alg_colour_diff_only = matches.force_colour_diff_only;
    config.always_mark_duplicates = matches.always_mark_duplicates;

    if matches.any_file {
        config.only_known_file_extensions = false;
    }

    match &matches.num_threads {
        Some(num_threads) => {
            if *num_threads < 1 {
                return Err("Number of threads must be greater than 0".to_owned());
            }
            config.num_threads = *num_threads;
        },
        None => {},
    }

    match &matches.colour_diff_threshold {
        Some(colour_diff_threshold) => {
            if *colour_diff_threshold > 49000 {
                return Err(
                    "colour_diff_threshold must be between 0 - 49000 inclusive.".to_owned(),
                );
            }
            config.colour_difference_threshold = *colour_diff_threshold as u64;
        },
        None => {},
    }

    match &matches.compare_dir {
        Some(c_dir) => {
            if compare_path_ok {
                config.compare_dir = c_dir.clone();
                config.am_comparing = true;
            } else {
                return Err(
                    "Option to --compare is not a valid directory or file.".to_owned(),
                );
            }
        },
        None => {},
    }

    match &matches.ignore_low_res {
        Some(width_height) => {
            match extract_width_and_height(width_height.as_str()) {
                Some((width, height)) => {
                    if width < 16 || height < 16 {
                        return Err(
                            "Images with width or height of less than 16 pixels are always ignored.".to_owned(),
                        );
                    }
                    config.min_width = width;
                    config.min_height = height;
                },
                None => {
                    return Err(
                        "Parameter passed to --min-resolution option is incorrectly formatted. Should be widthxheight e.g. 100x100.".to_owned(),
                    );
                },
            }
        },
        None => {},
    }

    Ok(config)
}

/// Files or directories were named on the command line.
pub open spec fn has_cmd_paths(matches: Args) -> bool {
    matches.dir_or_file matches Some(p) && p.len() > 0
}

/// Read the command-line arguments and hand back the list of files or
/// directories to traverse, or nothing when none were given.
#[verifier::loop_isolation(false)]
pub fn gather_file_list_from_cmd_line(matches: &Args) -> (r: Option<Vec<String>>)
    ensures
        r is Some <==> has_cmd_paths(*matches),
        r matches Some(v) ==> (matches.dir_or_file matches Some(p) && v@ == p@),
{
    match &matches.dir_or_file {
        Some(paths) => {
            if paths.len() < 1 {
                return None;
            }
            let mut path_list: Vec<String> = Vec::new();
            let mut i: usize = 0;
            while i < paths.len()
                invariant
                    i <= paths@.len(),
                    path_list@.len() == i,
                    forall|t: int| 0 <= t < i ==> path_list@[t] == paths@[t],
                decreases paths@.len() - i,
            {
                path_list.push(paths[i].clone());
                i = i + 1;
            }
            proof {
                assert(path_list@ =~= paths@);
            }
            Some(path_list)
        },
        None => None,
    }
}

/// Determine where the candidate file paths come from: the command line
/// when any were given there, otherwise the lines read from standard
/// input, or nothing when both are empty. The caller reads standard
/// input and traverses whatever directories the chosen list names.
pub fn collate_file_list_any_source(matches: &Args, stdin_paths: Vec<String>) -> (r: Option<
    Vec<String>,
>)
    ensures
        has_cmd_paths(*matches) ==> (matches.dir_or_file matches Some(p) && r matches Some(v)
            && v@ == p@),
        !has_cmd_paths(*matches) && stdin_paths@.len() > 0 ==> (r matches Some(v) && v@
            == stdin_paths@),
        !has_cmd_paths(*matches) && stdin_paths@.len() == 0 ==> r is None,
{
    match gather_file_list_from_cmd_line(matches) {
        Some(st_files) => Some(st_files),
        None => {
            if stdin_paths.len() > 0 {
                Some(stdin_paths)
            } else {
                None
            }
        },
    }
}

/// Wrap gathered paths into ingestion records: each carries whether it
/// came from the comparison set, and whether it must be marked a
/// duplicate in all circumstances, which holds only for comparison-set
/// paths when the caller asked to ignore resolution.
#[verifier::loop_isolation(false)]
pub fn make_image_paths(paths: Vec<String>, am_comparing: bool, always_mark_duplicates: bool) -> (r:
    Vec<ImagePath>)
    ensures
        r@.len() == paths@.len(),
        forall|t: int|
            0 <= t < paths@.len() ==> {
                &&& (#[trigger] r@[t]).fpath == paths@[t]
                &&& r@[t].is_compare_dir == am_comparing
                &&& r@[t].always_mark_dupe_compare == (am_comparing && always_mark_duplicates)
            },
{
    let always_mark = am_comparing && always_mark_duplicates;
    let mut out: Vec<ImagePath> = Vec::new();
    let mut i: usize = 0;
    while i < paths.len()
        invariant
            i <= paths@.len(),
            out@.len() == i,
            forall|t: int|
                0 <= t < i ==> {
                    &&& (#[trigger] out@[t]).fpath == paths@[t]
                    &&& out@[t].is_compare_dir == am_comparing
                    &&& out@[t].always_mark_dupe_compare == (am_comparing
                        && always_mark_duplicates)
                },
        decreases paths@.len() - i,
    {
        let fp = paths[i].clone();
        proof {
            assert(fp == paths@[i as int]);
        }
        out.push(
            ImagePath {
                fpath: fp,
                is_compare_dir: am_comparing,
                always_mark_dupe_compare: always_mark,
            },
        );
        i = i + 1;
    }
    out
}

} // verus!
