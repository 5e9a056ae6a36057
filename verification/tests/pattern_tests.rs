use frame_pattern::compare::compare_paths;
use frame_pattern::pattern::Comparison;
use frame_pattern::pattern::generic_runner;
use frame_pattern::scan::ScanError;

#[test]
fn placeholder_from_comparison() {
    let cmp = Comparison { prefix: "some_prefix_", suffix: "suffix.ext", zero_padding: 4 };
    assert_eq!(cmp.ffmpeg_filename(), "some_prefix_%04dsuffix.ext");
}

#[test]
fn placeholder_with_multidigit_width() {
    let cmp = Comparison { prefix: "a", suffix: "b", zero_padding: 12 };
    assert_eq!(cmp.ffmpeg_filename(), "a%012db");
}

#[test]
fn placeholder_with_empty_prefix() {
    let one = "0001_frame.png";
    let two = "0002_frame.png";
    let cmp = compare_paths(one, two).unwrap();
    assert_eq!(cmp.prefix, "");
    assert_eq!(cmp.suffix, "_frame.png");
    assert_eq!(cmp.zero_padding, 4);
    assert_eq!(cmp.ffmpeg_filename(), "%04d_frame.png");
}

#[test]
fn runner_renders_placeholder() {
    let res = generic_runner("some_prefix_0001suffix.ext", "some_prefix_0002suffix.ext");
    assert_eq!(res.unwrap(), "some_prefix_%04dsuffix.ext");
}

#[test]
fn runner_passes_errors_on() {
    let res = generic_runner("same_name.png", "same_name.png");
    assert_eq!(res.unwrap_err(), ScanError::TruncatedInput);

    let res = generic_runner("one.png", "two.png");
    assert_eq!(res.unwrap_err(), ScanError::PrefixMismatch);
}
