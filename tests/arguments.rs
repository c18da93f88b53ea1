use dds_edit::cli::parse_arguments;

fn words(w: &[&str]) -> Vec<String> {
    std::iter::once("prog").chain(w.iter().copied()).map(|s| s.to_string()).collect()
}

#[test]
fn positional_input_path() {
    let c = parse_arguments(&words(&["images"])).unwrap();
    assert_eq!(c.path_in, "images");
    assert_eq!(c.path_out, "./images/output");
    assert_eq!(c.target_sizes, vec![2048]);
    assert_eq!(c.threads, 4);
}

#[test]
fn long_options_with_values() {
    let c = parse_arguments(&words(&["in", "--pathout=out", "--maxdepth=2", "--target-widths=512,1024", "--threads=8"])).unwrap();
    assert_eq!(c.path_out, "out");
    assert_eq!(c.max_depth, 2);
    assert_eq!(c.target_sizes, vec![512, 1024]);
    assert_eq!(c.threads, 8);
}

#[test]
fn short_options_take_following_words() {
    let c = parse_arguments(&words(&["-on", "out", "3", "in", "-t", "256"])).unwrap();
    assert_eq!(c.path_out, "out");
    assert_eq!(c.threads, 3);
    assert_eq!(c.path_in, "in");
    assert_eq!(c.target_sizes, vec![256]);
}

#[test]
fn config_file_stands_in_for_input_path() {
    let c = parse_arguments(&words(&["-c", "conf.toml"])).unwrap();
    assert_eq!(c.config_file.as_deref(), Some("conf.toml"));
    assert!(c.path_in.is_empty());
}

#[test]
fn argument_errors() {
    assert_eq!(parse_arguments(&words(&[])).unwrap_err(), "Input path is required.");
    assert_eq!(parse_arguments(&words(&["a", "b"])).unwrap_err(), "Unexpected positional argument 'b'");
    assert_eq!(parse_arguments(&words(&["a", "--pathout"])).unwrap_err(), "Missing value for '--pathout'");
    assert_eq!(parse_arguments(&words(&["a", "--bogus", "x"])).unwrap_err(), "Unknown option '--bogus'");
    assert_eq!(parse_arguments(&words(&["a", "--bogus"])).unwrap_err(), "Missing value for '--bogus'");
    assert_eq!(parse_arguments(&words(&["a", "--maxdepth", "deep"])).unwrap_err(), "Invalid value for --maxdepth");
    assert_eq!(parse_arguments(&words(&["a", "--bogus=1"])).unwrap_err(), "Unknown option '--bogus=1'");
    assert_eq!(parse_arguments(&words(&["a", "--threads=x"])).unwrap_err(), "Invalid value for --threads");
    assert_eq!(parse_arguments(&words(&["a", "-d"])).unwrap_err(), "Missing value for -d");
    assert_eq!(parse_arguments(&words(&["a", "-x", "1"])).unwrap_err(), "Unknown option '-x'");
    assert_eq!(parse_arguments(&words(&["a", "-n", "many"])).unwrap_err(), "Invalid value for -n");
    assert_eq!(parse_arguments(&words(&["a", "-t", "1,z"])).unwrap_err(), "Invalid target width 'z'");
}

#[test]
fn long_options_take_next_word() {
    let c = parse_arguments(&words(&["/in", "--threads", "8", "--pathout", "out", "--target-widths", "64, 128", "--useconfig", "c.toml"])).unwrap();
    assert_eq!(c.path_in, "/in");
    assert_eq!(c.threads, 8);
    assert_eq!(c.path_out, "out");
    assert_eq!(c.target_sizes, vec![64, 128]);
    assert_eq!(c.config_file.as_deref(), Some("c.toml"));
}
