use dds_edit::cli::{parse_long_option, parse_target_widths, parse_u32, trim};
use dds_edit::config::{merge_configs, Config};
use dds_edit::logging::{completion_message, LogQueue, LogType, TextColor};
use dds_edit::pathtree::{filter_pathtree_types, get_path_tree, shown_in_tree, tree_depth, PathEntry};
use dds_edit::paths::{extension, stem, FsPath};

fn entry(parts: &[&str], depth: usize, is_file: bool) -> PathEntry {
    PathEntry { path: FsPath { parts: parts.iter().map(|s| s.to_string()).collect() }, depth, is_file }
}

#[test]
fn walk_bounded_by_depth() {
    let walk = vec![
        entry(&["r"], 0, false),
        entry(&["r", "a.png"], 1, true),
        entry(&["r", "d"], 1, false),
        entry(&["r", "d", "b.png"], 2, true),
    ];
    let r = get_path_tree(&walk, 1);
    let got: Vec<String> = r.iter().map(|e| e.path.parts.join("/")).collect();
    assert_eq!(got, vec!["r", "r/a.png", "r/d"]);
    assert_eq!(get_path_tree(&walk, 0).len(), 1);
}

#[test]
fn filter_keeps_wanted_files() {
    let paths = vec![
        entry(&["r", "a.PNG"], 1, true),
        entry(&["r", "b.txt"], 1, true),
        entry(&["r", "dir.jpg"], 1, false),
        entry(&["r", ".png"], 1, true),
        entry(&["r", "c.jpeg"], 1, true),
    ];
    let exts = vec!["jpg".to_string(), "jpeg".to_string(), "png".to_string()];
    let r = filter_pathtree_types(&paths, &exts);
    let got: Vec<String> = r.iter().map(|p| p.parts.join("/")).collect();
    assert_eq!(got, vec!["r/a.PNG", "r/c.jpeg"]);
}

#[test]
fn file_name_parts() {
    assert_eq!(extension("a.tar.gz"), Some("gz"));
    assert_eq!(extension(".hidden"), None);
    assert_eq!(extension("plain"), None);
    assert_eq!(stem("a.tar.gz"), "a.tar");
    assert_eq!(stem(".hidden"), ".hidden");
}

#[test]
fn widths_parse_with_spaces() {
    assert_eq!(parse_target_widths(" 512, 1024 ,2048").unwrap(), vec![512, 1024, 2048]);
}

#[test]
fn widths_reject_bad_piece() {
    assert_eq!(parse_target_widths("512, abc ,x").unwrap_err(), "Invalid target width 'abc'");
    assert_eq!(parse_target_widths("").unwrap_err(), "Invalid target width ''");
}

#[test]
fn u32_parsing() {
    assert_eq!(parse_u32("+17"), Some(17));
    assert_eq!(parse_u32("4294967295"), Some(u32::MAX));
    assert_eq!(parse_u32("4294967296"), None);
    assert_eq!(parse_u32("-1"), None);
    assert_eq!(parse_u32("+"), None);
}

#[test]
fn long_option_split() {
    assert_eq!(parse_long_option("--threads=8"), Some(("threads".to_string(), Some("8".to_string()))));
    assert_eq!(parse_long_option("--pathout"), Some(("pathout".to_string(), None)));
    assert_eq!(parse_long_option("-o"), None);
}

#[test]
fn cli_values_override_file_values() {
    let mut file = Config::default();
    file.path_in = "from_file".to_string();
    file.threads = 8;
    file.target_sizes = vec![256];
    let mut cli = Config::default();
    cli.path_out = "out".to_string();
    cli.max_depth = 3;
    let m = merge_configs(file, cli);
    assert_eq!(m.path_in, "from_file");
    assert_eq!(m.path_out, "out");
    assert_eq!(m.max_depth, 3);
    assert_eq!(m.target_sizes, vec![256]);
    assert_eq!(m.threads, 8);
}

#[test]
fn default_config() {
    let c = Config::default();
    assert_eq!(c.path_out, "./images/output");
    assert_eq!(c.target_sizes, vec![2048]);
    assert_eq!(c.threads, 4);
    assert_eq!(c.max_depth, usize::MAX);
    assert!(c.path_in.is_empty() && c.config_file.is_none());
}

#[test]
fn completion_line() {
    assert_eq!(completion_message(1234), "Processing completed in 1.23 seconds.");
    assert_eq!(completion_message(5), "Processing completed in 0.01 seconds.");
    assert_eq!(completion_message(60_000), "Processing completed in 60.00 seconds.");
}

#[test]
fn log_queue_keeps_order() {
    let mut q = LogQueue::new();
    q.enqueue(LogType::Print, "a".to_string(), TextColor::White);
    q.enqueue(LogType::Println, "b".to_string(), TextColor::Red);
    let items = q.process_queue();
    assert_eq!(items.len(), 2);
    assert_eq!(items[0].content, "a");
    assert_eq!(items[1].color, TextColor::Red);
    assert!(q.items.is_empty());
}

#[test]
fn listing_depth_and_cutoff() {
    let rel = FsPath { parts: vec![".".to_string(), "a".to_string(), "b.png".to_string()] };
    let abs = FsPath { parts: vec!["/".to_string(), "a".to_string(), "b.png".to_string()] };
    assert_eq!(tree_depth(&rel), 2);
    assert_eq!(tree_depth(&abs), 3);
    assert!(shown_in_tree(5, 0));
    assert!(shown_in_tree(2, 2));
    assert!(!shown_in_tree(3, 2));
}

#[test]
fn trim_strips_unicode_white_space() {
    assert_eq!(trim("\u{3000} a b\t\n\u{a0}"), "a b");
    assert_eq!(trim(" \u{2028} "), "");
    assert_eq!(trim("x"), "x");
    assert_eq!(parse_target_widths("\u{3000}12\u{a0},\t7\n").unwrap(), vec![12, 7]);
}
