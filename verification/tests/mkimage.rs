use ue2emu::mkimage::{parse_args, parse_args_checked, parse_size, parse_size_checked, prepare, summary, Args, ArgsParse, USAGE};

#[test]
fn sizes_parse_with_and_without_a_suffix() {
    assert_eq!(parse_size("64").unwrap(), 64 << 20, "a bare number is MiB");
    assert_eq!(parse_size("64M").unwrap(), 64 << 20);
    assert_eq!(parse_size("2G").unwrap(), 2 << 30);
    assert_eq!(parse_size("512k").unwrap(), 512 << 10);
    assert!(parse_size("0").is_err());
    assert!(parse_size("big").is_err());
}

#[test]
fn size_messages_name_the_value() {
    assert_eq!(parse_size("big").unwrap_err(), "--size big: not a number");
    assert_eq!(parse_size("0K").unwrap_err(), "--size 0K: must not be zero");
    assert_eq!(parse_size("").unwrap_err(), "--size : not a number");
    assert_eq!(parse_size("M").unwrap_err(), "--size M: not a number");
    assert_eq!(parse_size("-5").unwrap_err(), "--size -5: not a number");
}

#[test]
fn size_ignores_white_space_and_takes_a_plus() {
    assert_eq!(parse_size(" 3 g").unwrap(), 3 << 30);
    assert_eq!(parse_size("+7m").unwrap(), 7 << 20);
    assert_eq!(parse_size("\u{3000}12\tK").unwrap(), 12 << 10);
    assert_eq!(parse_size("1 2").unwrap_err(), "--size 1 2: not a number");
    assert_eq!(parse_size("1K").unwrap(), 1024);
}

#[test]
fn size_too_large_for_bytes_is_flagged() {
    assert_eq!(parse_size_checked("18446744073709551615"), None);
    assert_eq!(parse_size_checked("17179869183G"), Some(Ok(17179869183u64 << 30)));
    assert_eq!(parse_size_checked("17179869184G"), None);
    assert_eq!(parse_size_checked("99999999999999999999"), Some(Err("--size 99999999999999999999: not a number".to_string())));
}

fn strings(v: &[&str]) -> Vec<String> {
    v.iter().map(|s| s.to_string()).collect()
}

#[test]
fn args_take_image_dir_and_options() {
    let r = parse_args(&strings(&["img.raw", "dir", "--size", "64", "--label", "CARD", "--force"])).unwrap();
    assert_eq!(
        r,
        ArgsParse::Run(Args {
            image: "img.raw".into(),
            dir: "dir".into(),
            size: Some(64 << 20),
            label: "CARD".into(),
            force: true
        })
    );
    let r = parse_args(&strings(&["a", "b"])).unwrap();
    assert_eq!(
        r,
        ArgsParse::Run(Args { image: "a".into(), dir: "b".into(), size: None, label: "UE2SD".into(), force: false })
    );
    assert_eq!(parse_args(&strings(&["a", "--help", "b"])).unwrap(), ArgsParse::Help);
    assert_eq!(parse_args(&strings(&["-h"])).unwrap(), ArgsParse::Help);
}

#[test]
fn args_errors_say_what_is_wrong() {
    assert_eq!(parse_args(&strings(&["a"])).unwrap_err(), USAGE);
    assert_eq!(parse_args(&strings(&[])).unwrap_err(), USAGE);
    assert_eq!(parse_args(&strings(&["a", "b", "c"])).unwrap_err(), format!("too many arguments\n{USAGE}"));
    assert_eq!(parse_args(&strings(&["a", "-x"])).unwrap_err(), format!("unknown option -x\n{USAGE}"));
    assert_eq!(parse_args(&strings(&["a", "b", "--size"])).unwrap_err(), "--size needs a value");
    assert_eq!(parse_args(&strings(&["a", "b", "--label"])).unwrap_err(), "--label needs a value");
    assert_eq!(parse_args(&strings(&["a", "b", "--size", "0"])).unwrap_err(), "--size 0: must not be zero");
    // The value after --size is taken whatever it looks like.
    assert_eq!(parse_args(&strings(&["--size", "--force"])).unwrap_err(), "--size --force: not a number");
    assert_eq!(parse_args_checked(&strings(&["a", "b", "--size", "99999999999G"])), None);
}

fn args(force: bool) -> Args {
    Args { image: "sd.img".into(), dir: "stage".into(), size: None, label: "UE2SD".into(), force }
}

#[test]
fn prepare_refuses_a_missing_directory_and_an_existing_image() {
    assert_eq!(prepare(&args(false), false, false).unwrap_err(), "stage: not a directory");
    assert_eq!(prepare(&args(false), true, true).unwrap_err(), "sd.img: already exists (--force replaces it)");
    assert_eq!(prepare(&args(true), true, true), Ok(true));
    assert_eq!(prepare(&args(false), true, false), Ok(false));
}

#[test]
fn summary_line_counts_in_mib() {
    assert_eq!(
        summary(&args(false), 64 << 20, 3, 2, 1234, 0),
        "sd.img: 64 MiB, label UE2SD, 3 file(s) and 2 director(ies), 1234 bytes of content"
    );
    assert_eq!(
        summary(&args(false), (2 << 20) - 1, 0, 0, 0, 5),
        "sd.img: 1 MiB, label UE2SD, 0 file(s) and 0 director(ies), 0 bytes of content, 5 skipped"
    );
}
