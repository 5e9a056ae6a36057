use frame_pattern::compare::compare_paths;
use frame_pattern::compare::CompareState;
use frame_pattern::compare::Either;
use frame_pattern::compare::EitherT;
use frame_pattern::compare::Prefix;
use frame_pattern::pattern::Comparison;
use frame_pattern::scan::ScanError;

#[test]
fn simple_numerics() {
    let one = "some_prefix_0001suffix.ext";
    let two = "some_prefix_0002suffix.ext";
    let res = compare_paths(one, two).unwrap();

    let expected = Comparison { prefix: "some_prefix_", suffix: "suffix.ext", zero_padding: 4 };

    assert_eq!(res, expected);
}

#[test]
fn nonsimple_numerics() {
    let one = "some_prefix_0123suffix.ext";
    let two = "some_prefix_4123suffix.ext";
    let res = compare_paths(one, two).unwrap();

    let expected = Comparison { prefix: "some_prefix_", suffix: "suffix.ext", zero_padding: 4 };

    assert_eq!(res, expected);
}

#[test]
fn leading_useless_numerics() {
    let one = "text_prefix_0001_other_stuff_0001.ext";
    let two = "text_prefix_0001_other_stuff_0002.ext";

    let res = compare_paths(one, two).unwrap();

    let expected =
        Comparison { prefix: "text_prefix_0001_other_stuff_", suffix: ".ext", zero_padding: 4 };

    assert_eq!(res, expected);
}

#[test]
fn swapped_arguments_give_same_comparison() {
    let one = "shot_042_take_07.png";
    let two = "shot_042_take_19.png";
    let forward = compare_paths(one, two).unwrap();
    let backward = compare_paths(two, one).unwrap();

    assert_eq!(forward, backward);
    assert_eq!(forward.prefix, "shot_042_take_");
    assert_eq!(forward.suffix, ".png");
    assert_eq!(forward.zero_padding, 2);
}

#[test]
fn identical_filenames_are_truncated_input() {
    let res = compare_paths("frame_0001.png", "frame_0001.png");
    assert_eq!(res.unwrap_err(), ScanError::TruncatedInput);
}

#[test]
fn empty_filenames_are_truncated_input() {
    let res = compare_paths("", "");
    assert_eq!(res.unwrap_err(), ScanError::TruncatedInput);
}

#[test]
fn run_at_end_of_input_is_truncated_input() {
    // The varying run is never terminated by a shared non-digit character.
    let res = compare_paths("frame_0001", "frame_0002");
    assert_eq!(res.unwrap_err(), ScanError::TruncatedInput);
}

#[test]
fn nondigit_difference_in_prefix() {
    let res = compare_paths("alpha.ext", "alpho.ext");
    assert_eq!(res.unwrap_err(), ScanError::PrefixMismatch);
}

#[test]
fn nondigit_difference_in_suffix() {
    let res = compare_paths("clip_1_a.ext", "clip_2_b.ext");
    assert_eq!(res.unwrap_err(), ScanError::SuffixMismatch);
}

#[test]
fn digit_against_nondigit_in_run() {
    // The pair after the disagreeing digits differs without both being digits.
    let res = compare_paths("a1x.ext", "a2y.ext");
    assert_eq!(res.unwrap_err(), ScanError::NumericMismatch);
}

#[test]
fn zero_padding_is_positive() {
    let res = compare_paths("v1.mov", "v2.mov").unwrap();
    assert!(res.zero_padding >= 1);
    assert_eq!(res.zero_padding, 1);
    assert_eq!(res.prefix, "v");
    assert_eq!(res.suffix, ".mov");
}

#[test]
fn multibyte_characters_pair_by_scalar_value() {
    let one = "café_07_grande.png";
    let two = "café_19_grande.png";
    let res = compare_paths(one, two).unwrap();

    assert_eq!(res.prefix, "café_");
    assert_eq!(res.suffix, "_grande.png");
    assert_eq!(res.zero_padding, 2);
}

#[test]
fn shorter_input_bounds_the_scan() {
    // The paired region ends with the shorter input; the suffix comes from
    // the first filename, trailing characters of the longer one unchecked.
    let res = compare_paths("img_1_a_tail", "img_2_a").unwrap();
    assert_eq!(res.prefix, "img_");
    assert_eq!(res.suffix, "_a_tail");
    assert_eq!(res.zero_padding, 1);
}


#[test]
fn typestate_transitions() {
    let st = CompareState { state: Prefix { prefix_length: 0 } };
    // An equal non-digit pair extends the prefix.
    let st = match st.prefix_match('a', 'a').unwrap() {
        Either::Left(p) => p,
        Either::Right(_) => panic!("unexpected numeric transition"),
    };
    assert_eq!(st.state.prefix_length, 1);
    // Differing digits open a varying run.
    let st = match st.prefix_match('3', '7').unwrap() {
        Either::Right(n) => n,
        Either::Left(_) => panic!("expected numeric transition"),
    };
    assert_eq!(st.state.numeric_length, 1);
    assert!(st.state.encountered_mismatch);
    // An equal terminating character moves to the suffix.
    let mut st = match st.read_numeric('.', '.').unwrap() {
        EitherT::RightTwo(s) => s,
        _ => panic!("expected suffix transition"),
    };
    assert_eq!(st.state.suffix_start, 2);
    assert!(st.suffix_match('x', 'x').is_ok());
    assert!(st.suffix_match('x', 'y').is_err());
}

#[test]
fn false_numeric_run_folds_into_prefix() {
    let st = CompareState { state: Prefix { prefix_length: 2 } };
    let st = match st.prefix_match('5', '5').unwrap() {
        Either::Right(n) => n,
        Either::Left(_) => panic!("expected numeric transition"),
    };
    let st = match st.read_numeric('5', '5').unwrap() {
        EitherT::Continue(n) => n,
        _ => panic!("expected the run to continue"),
    };
    assert_eq!(st.state.numeric_length, 2);
    assert!(!st.state.encountered_mismatch);
    // The run never disagreed: it folds back into the prefix together with
    // the terminating character.
    let st = match st.read_numeric('_', '_').unwrap() {
        EitherT::RightOne(p) => p,
        _ => panic!("expected the run to fold into the prefix"),
    };
    assert_eq!(st.state.prefix_length, 5);
}
