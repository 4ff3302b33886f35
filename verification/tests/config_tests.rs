use meilidump::config::{parse_args, split_csv, Cli, ConfigError};

fn cli(
    index: Vec<&str>,
    files: Vec<&str>,
    displayed: Vec<&str>,
    searchable: Vec<&str>,
    filterable: Vec<&str>,
) -> Cli {
    Cli {
        index: index.into_iter().map(String::from).collect(),
        files: files.into_iter().map(String::from).collect(),
        displayed: displayed.into_iter().map(String::from).collect(),
        searchable: searchable.into_iter().map(String::from).collect(),
        filterable: filterable.into_iter().map(String::from).collect(),
    }
}

#[test]
fn csv_trims_and_drops_empty_tokens() {
    let toks = split_csv("a, b ,,c");
    assert_eq!(toks, vec!["a".to_string(), "b".to_string(), "c".to_string()]);
}

#[test]
fn csv_of_empty_is_empty() {
    assert!(split_csv("").is_empty());
    assert!(split_csv(" , ,").is_empty());
}

#[test]
fn single_index_parses() {
    let c = cli(vec!["books"], vec!["b.json"], vec!["t,a"], vec!["t"], vec![]);
    let cfgs = parse_args(&c).unwrap();
    assert_eq!(cfgs.len(), 1);
    assert_eq!(cfgs[0].index, "books");
    assert_eq!(cfgs[0].files, vec!["b.json".to_string()]);
    assert_eq!(cfgs[0].displayed, vec!["t".to_string(), "a".to_string()]);
    assert_eq!(cfgs[0].searchable, vec!["t".to_string()]);
    assert!(cfgs[0].filterable.is_empty());
}

#[test]
fn repeated_name_appends_sources_and_replaces_attributes() {
    let c = cli(
        vec!["a", "b", "a"],
        vec!["f1.json", "f2.json", "f3.json,f4.json"],
        vec!["x", "y", "z"],
        vec!["s1", "s2", "s3"],
        vec![],
    );
    let cfgs = parse_args(&c).unwrap();
    assert_eq!(cfgs.len(), 2);
    assert_eq!(cfgs[0].index, "a");
    assert_eq!(
        cfgs[0].files,
        vec!["f1.json".to_string(), "f3.json".to_string(), "f4.json".to_string()]
    );
    assert_eq!(cfgs[0].displayed, vec!["z".to_string()]);
    assert_eq!(cfgs[0].searchable, vec!["s3".to_string()]);
    assert_eq!(cfgs[1].index, "b");
    assert_eq!(cfgs[1].files, vec!["f2.json".to_string()]);
    assert_eq!(cfgs[1].displayed, vec!["y".to_string()]);
}

#[test]
fn mismatched_lists_fail_with_both_counts() {
    let c = cli(vec!["a", "b"], vec!["f1.json"], vec![], vec![], vec![]);
    let e = parse_args(&c).unwrap_err();
    match e {
        ConfigError::CountMismatch { index_count, files_count } => {
            assert_eq!(index_count, 2);
            assert_eq!(files_count, 1);
        }
        other => panic!("wrong error: {:?}", other),
    }
    assert_eq!(e.message(), "2 index names but 1 source lists were given");
}

#[test]
fn empty_index_name_fails_before_merging() {
    let c = cli(vec![""], vec![""], vec![], vec![], vec![]);
    let e = parse_args(&c).unwrap_err();
    match e {
        ConfigError::EmptyIndexName { position } => assert_eq!(position, 0),
        other => panic!("wrong error: {:?}", other),
    }
    assert_eq!(e.message(), "empty index name at position 0");
}

#[test]
fn whitespace_only_index_name_fails() {
    let c = cli(vec!["a", "  "], vec!["f1.json", "f2.json"], vec![], vec![], vec![]);
    let e = parse_args(&c).unwrap_err();
    match e {
        ConfigError::EmptyIndexName { position } => assert_eq!(position, 1),
        other => panic!("wrong error: {:?}", other),
    }
}

#[test]
fn empty_source_list_fails_before_merging() {
    let c = cli(vec!["a", "b"], vec!["f1.json", " , ,"], vec![], vec![], vec![]);
    let e = parse_args(&c).unwrap_err();
    match e {
        ConfigError::EmptySourceList { position } => assert_eq!(position, 1),
        other => panic!("wrong error: {:?}", other),
    }
    assert_eq!(e.message(), "no source files at position 1");
}

#[test]
fn merged_configs_are_well_formed() {
    let c = cli(
        vec!["a", "a"],
        vec!["f1.json", "f2.json"],
        vec![],
        vec![],
        vec![],
    );
    let cfgs = parse_args(&c).unwrap();
    assert_eq!(cfgs.len(), 1);
    assert!(!cfgs[0].index.is_empty());
    assert!(!cfgs[0].files.is_empty());
}

#[test]
fn equal_lists_never_fail() {
    let c = cli(vec![], vec![], vec![], vec![], vec![]);
    assert!(parse_args(&c).unwrap().is_empty());
}

#[test]
fn index_names_are_trimmed() {
    let c = cli(vec![" books "], vec!["b.json"], vec![], vec![], vec![]);
    let cfgs = parse_args(&c).unwrap();
    assert_eq!(cfgs[0].index, "books");
}

#[test]
fn missing_attribute_entries_yield_empty_sets() {
    let c = cli(vec!["a", "b"], vec!["f1.json", "f2.json"], vec!["only-a"], vec![], vec![]);
    let cfgs = parse_args(&c).unwrap();
    assert_eq!(cfgs[0].displayed, vec!["only-a".to_string()]);
    assert!(cfgs[1].displayed.is_empty());
}

#[test]
fn decimal_rendering_is_exact() {
    assert_eq!(meilidump::text::u64_to_string(0), "0");
    assert_eq!(meilidump::text::u64_to_string(7), "7");
    assert_eq!(meilidump::text::u64_to_string(1234567890), "1234567890");
    assert_eq!(meilidump::text::u64_to_string(u64::MAX), "18446744073709551615");
}

#[test]
fn trimming_matches_rust() {
    assert_eq!(meilidump::text::trim_str("  a b\t"), "a b");
    assert_eq!(meilidump::text::trim_str("\u{3000}x\u{a0}"), "x");
    assert_eq!(meilidump::text::trim_str("   "), "");
    assert_eq!(meilidump::text::rtrim_str("a \r\n"), "a");
}
