use meilidump::config::{parse_args, Cli};
use meilidump::dump::{generate_dump, DumpFile, Strategy};

fn one_index_dump(name: &str) -> Vec<DumpFile> {
    let cli = Cli {
        index: vec![name.to_string()],
        files: vec!["books.json".to_string()],
        displayed: vec!["title,author".to_string()],
        searchable: vec!["title".to_string()],
        filterable: vec!["author".to_string()],
    };
    let configs = parse_args(&cli).unwrap();
    let sources = vec![vec!["[{\"id\":1},{\"id\":2}]".to_string()]];
    generate_dump(&configs, &sources, Strategy::Structured).unwrap()
}

fn content<'a>(tree: &'a [DumpFile], path: &str) -> &'a str {
    &tree.iter().find(|f| f.path == path).unwrap().content
}

#[test]
fn tree_has_expected_paths_in_order() {
    let tree = one_index_dump("books");
    let paths: Vec<&str> = tree.iter().map(|f| f.path.as_str()).collect();
    assert_eq!(
        paths,
        vec![
            "metadata.json",
            "instance_uid",
            "keys.jsonl",
            "network.json",
            "experimental-features.json",
            "indexes/books/metadata.json",
            "indexes/books/settings.json",
            "indexes/books/documents.jsonl",
            "batches/queue.jsonl",
            "tasks/queue.jsonl",
        ]
    );
}

#[test]
fn fixed_stub_files_are_exact() {
    let tree = one_index_dump("books");
    assert_eq!(content(&tree, "network.json"), "{\"self\":null,\"remotes\":{}}");
    assert_eq!(
        content(&tree, "experimental-features.json"),
        "{\"metrics\":false,\"logsRoute\":false,\"editDocumentsByFunction\":false,\"containsFilter\":false,\"network\":false,\"getTaskDocumentsRoute\":false,\"compositeEmbedders\":false,\"chatCompletions\":false}"
    );
}

#[test]
fn instance_metadata_has_version_tags() {
    let tree = one_index_dump("books");
    let v: serde_json::Value = serde_json::from_str(content(&tree, "metadata.json")).unwrap();
    assert_eq!(v["dumpVersion"], "V6");
    assert_eq!(v["dbVersion"], "1.15.2");
    assert!(v["dumpDate"].is_string());
}

#[test]
fn instance_uid_is_a_fresh_uuid() {
    let tree = one_index_dump("books");
    let uid = content(&tree, "instance_uid");
    assert_eq!(uid.len(), 36);
    assert!(uid.chars().all(|c| c == '-' || c.is_ascii_hexdigit()));
}

#[test]
fn three_api_keys_with_fixed_roles() {
    let tree = one_index_dump("books");
    let lines: Vec<&str> = content(&tree, "keys.jsonl").lines().collect();
    assert_eq!(lines.len(), 3);
    let keys: Vec<serde_json::Value> =
        lines.iter().map(|l| serde_json::from_str(l).unwrap()).collect();
    assert_eq!(keys[0]["name"], "Default Search API Key");
    assert_eq!(keys[0]["actions"].to_string(), "[\"search\"]");
    assert_eq!(keys[1]["name"], "Default Admin API Key");
    assert_eq!(keys[1]["actions"].to_string(), "[\"*\"]");
    assert_eq!(keys[2]["name"], "Default Chat API Key");
    assert_eq!(keys[2]["actions"].to_string(), "[\"chatCompletions\",\"search\"]");
    for k in &keys {
        assert_eq!(k["indexes"].to_string(), "[\"*\"]");
        assert!(k["expires_at"].is_null());
        assert_eq!(k["uid"].as_str().unwrap().len(), 36);
        assert_eq!(k["created_at"], k["updated_at"]);
    }
}

#[test]
fn index_settings_carry_attribute_sets_and_defaults() {
    let tree = one_index_dump("books");
    let v: serde_json::Value =
        serde_json::from_str(content(&tree, "indexes/books/settings.json")).unwrap();
    assert_eq!(v["displayedAttributes"].to_string(), "[\"title\",\"author\"]");
    assert_eq!(v["searchableAttributes"].to_string(), "[\"title\"]");
    assert_eq!(v["filterableAttributes"].to_string(), "[\"author\"]");
    assert_eq!(
        v["rankingRules"].to_string(),
        "[\"words\",\"typo\",\"proximity\",\"attribute\",\"sort\",\"exactness\"]"
    );
    assert_eq!(v["typoTolerance"]["minWordSizeForTypos"]["oneTypo"], 5);
    assert_eq!(v["faceting"]["maxValuesPerFacet"], 100);
    assert_eq!(v["pagination"]["maxTotalHits"], 1000);
    assert_eq!(v["proximityPrecision"], "byWord");
    assert_eq!(v["prefixSearch"], "indexingTime");
    assert_eq!(v["chat"]["documentTemplateMaxBytes"], 400);
    assert!(v["chat"]["documentTemplate"].as_str().unwrap().contains("{% for field in fields %}"));
}

#[test]
fn index_metadata_names_the_index() {
    let tree = one_index_dump("books");
    let v: serde_json::Value =
        serde_json::from_str(content(&tree, "indexes/books/metadata.json")).unwrap();
    assert_eq!(v["uid"], "books");
    assert_eq!(v["primaryKey"], "id");
    assert_eq!(v["createdAt"], v["updatedAt"]);
}

#[test]
fn documents_hold_converted_records() {
    let tree = one_index_dump("books");
    assert_eq!(content(&tree, "indexes/books/documents.jsonl"), "{\"id\":1}\n{\"id\":2}\n");
}

#[test]
fn batch_and_task_records_are_well_formed() {
    let tree = one_index_dump("books");
    let batch_lines: Vec<&str> = content(&tree, "batches/queue.jsonl").lines().collect();
    assert_eq!(batch_lines.len(), 1);
    let b: serde_json::Value = serde_json::from_str(batch_lines[0]).unwrap();
    assert_eq!(b["uid"], 0);
    assert_eq!(b["stats"]["status"]["succeeded"], 1);
    assert_eq!(b["stats"]["indexUids"]["books"], 1);
    assert_eq!(b["stopReason"], "batched all enqueued tasks");
    let task_lines: Vec<&str> = content(&tree, "tasks/queue.jsonl").lines().collect();
    assert_eq!(task_lines.len(), 1);
    let t: serde_json::Value = serde_json::from_str(task_lines[0]).unwrap();
    assert_eq!(t["uid"], 0);
    assert_eq!(t["indexUid"], "books");
    assert_eq!(t["status"], "succeeded");
    assert_eq!(t["type"]["documentImport"]["method"], "ReplaceDocuments");
}

#[test]
fn one_directory_and_one_task_line_per_distinct_name() {
    let cli = Cli {
        index: vec!["a".to_string(), "b".to_string(), "a".to_string()],
        files: vec!["f1.json".to_string(), "f2.json".to_string(), "f3.json".to_string()],
        displayed: vec![],
        searchable: vec![],
        filterable: vec![],
    };
    let configs = parse_args(&cli).unwrap();
    let arr = "[{\"id\":1}]".to_string();
    let sources = vec![
        vec![arr.clone(), arr.clone()],
        vec![arr.clone()],
    ];
    let tree = generate_dump(&configs, &sources, Strategy::Structured).unwrap();
    assert_eq!(tree.len(), 7 + 3 * 2);
    let dirs: Vec<&str> = tree
        .iter()
        .filter(|f| f.path.ends_with("/metadata.json"))
        .map(|f| f.path.as_str())
        .collect();
    assert_eq!(dirs, vec!["indexes/a/metadata.json", "indexes/b/metadata.json"]);
    let task_count = content(&tree, "tasks/queue.jsonl").lines().count();
    assert_eq!(task_count, 2);
    let uids: Vec<&str> = content(&tree, "tasks/queue.jsonl").lines().collect();
    let t0: serde_json::Value = serde_json::from_str(uids[0]).unwrap();
    let t1: serde_json::Value = serde_json::from_str(uids[1]).unwrap();
    assert_eq!(t0["uid"], 0);
    assert_eq!(t0["indexUid"], "a");
    assert_eq!(t1["uid"], 1);
    assert_eq!(t1["indexUid"], "b");
}

#[test]
fn documents_are_identical_across_runs() {
    let t1 = one_index_dump("books");
    let t2 = one_index_dump("books");
    assert_eq!(
        content(&t1, "indexes/books/documents.jsonl"),
        content(&t2, "indexes/books/documents.jsonl")
    );
    assert_eq!(
        content(&t1, "indexes/books/settings.json"),
        content(&t2, "indexes/books/settings.json")
    );
    // fresh identifiers differ between runs
    assert_ne!(content(&t1, "instance_uid"), content(&t2, "instance_uid"));
}

#[test]
fn index_names_are_json_escaped_in_contents() {
    let tree = one_index_dump("we\"ird");
    let v: serde_json::Value =
        serde_json::from_str(content(&tree, "indexes/we\"ird/metadata.json")).unwrap();
    assert_eq!(v["uid"], "we\"ird");
    let b: serde_json::Value =
        serde_json::from_str(content(&tree, "batches/queue.jsonl").trim_end()).unwrap();
    assert_eq!(b["stats"]["indexUids"]["we\"ird"], 1);
}

#[test]
fn format_error_names_the_offending_file() {
    let cli = Cli {
        index: vec!["a".to_string()],
        files: vec!["good.json,bad.json".to_string()],
        displayed: vec![],
        searchable: vec![],
        filterable: vec![],
    };
    let configs = parse_args(&cli).unwrap();
    let sources = vec![vec!["[]".to_string(), "{\"not\":\"array\"}".to_string()]];
    let e = generate_dump(&configs, &sources, Strategy::Structured).unwrap_err();
    assert_eq!(e.file, "bad.json");
}

#[test]
fn streaming_strategy_never_fails() {
    let cli = Cli {
        index: vec!["a".to_string()],
        files: vec!["f.json".to_string()],
        displayed: vec![],
        searchable: vec![],
        filterable: vec![],
    };
    let configs = parse_args(&cli).unwrap();
    let sources = vec![vec!["not json at all".to_string()]];
    let tree = generate_dump(&configs, &sources, Strategy::StreamingLines).unwrap();
    assert_eq!(content(&tree, "indexes/a/documents.jsonl"), "");
}
