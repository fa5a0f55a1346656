use dscan11::paths::PathStyle;
use dscan11::workspace::workspace_cache_paths;
use dscan11::builtin::{builtin_rules, classify_path};
use dscan11::categories::{
    category_rules_status, init_category_config, load_category_rules, normalize_extension,
    normalize_path_fragment, CategoryConfig, CategoryRules,
};
use dscan11::config::{FileRead, CATEGORY_CONFIG_VERSION};
use dscan11::error::CliError;
use dscan11::names::NameMap;
use dscan11::snapshot::{ScanStats, Snapshot, SNAPSHOT_VERSION};

fn lists(pairs: &[(&str, &[&str])]) -> NameMap<Vec<String>> {
    let mut map = NameMap::new();
    for (name, items) in pairs {
        map.insert(
            name.to_string(),
            items.iter().map(|item| item.to_string()).collect(),
        );
    }
    map
}

fn config(categories: &[(&str, &[&str])], path_rules: Option<&[(&str, &[&str])]>) -> CategoryConfig {
    CategoryConfig {
        version: CATEGORY_CONFIG_VERSION,
        categories: lists(categories),
        path_rules: path_rules.map(lists),
    }
}

fn rules(config: CategoryConfig) -> CategoryRules {
    CategoryRules::from_config(config, "test".to_string()).expect("rules")
}

fn refusal(config: CategoryConfig) -> String {
    CategoryRules::from_config(config, "test".to_string())
        .expect_err("refused")
        .text()
}

#[test]
fn classifies_common_extensions_and_paths() {
    assert_eq!(classify_path(r"C:\x\movie.mkv"), "Videos");
    assert_eq!(classify_path(r"C:\x\archive.7z"), "Archives");
    assert_eq!(classify_path(r"C:\x\disk.vhdx"), "Disk Images / VMs");
    assert_eq!(
        classify_path(r"C:\Users\Example\OneDrive\thing.bin"),
        "Cloud / OneDrive"
    );
    assert_eq!(
        classify_path(r"C:\work\project\target\debug\a.obj"),
        "Developer / Code"
    );
    assert_eq!(
        classify_path(r"C:\Users\Example\.ollama\models\blobs\sha256-acaad28d51b81c74"),
        "AI Models"
    );
    assert_eq!(
        classify_path(r"C:\Users\Example\AppData\Local\Docker\wsl\data\ext4.vhdx"),
        "Docker / Containers"
    );
}

#[test]
fn default_category_rules_match_public_classifier() {
    let rules = CategoryRules::from_config(CategoryConfig::default(), "builtin".to_string())
        .expect("default rules");
    for path in [
        r"C:\x\movie.mkv",
        r"C:\x\archive.7z",
        r"C:\x\disk.vhdx",
        r"C:\Users\Example\OneDrive\thing.bin",
        r"C:\work\project\target\debug\a.obj",
        r"C:\Users\Example\.ollama\models\blobs\sha256-acaad28d51b81c74",
        r"C:\Users\Example\AppData\Local\Docker\wsl\data\ext4.vhdx",
    ] {
        assert_eq!(rules.classify(path), classify_path(path));
    }
    assert_eq!(rules.fingerprint(), builtin_rules().fingerprint());
}

#[test]
fn path_rules_take_priority_over_extensions_and_cloud_fallback() {
    assert_eq!(
        classify_path(r"C:\Users\Example\AppData\Local\Docker\wsl\data\ext4.vhdx"),
        "Docker / Containers"
    );
    assert_eq!(
        classify_path(r"C:\Users\Example\.ollama\models\weights.pdf"),
        "AI Models"
    );
    assert_eq!(
        classify_path(r"C:\Users\Example\OneDrive\notes.pdf"),
        "Documents"
    );
    assert_eq!(
        classify_path(r"C:\Users\Example\OneDrive\thing.unknown"),
        "Cloud / OneDrive"
    );
}

#[test]
fn classifies_common_ai_model_and_docker_storage_paths() {
    for path in [
        r"C:\Users\Example\.cache\huggingface\hub\models--org--model\blobs\abc",
        r"C:\Users\Example\huggingface\hub\models--org--model\blobs\abc",
        r"C:\Users\Example\AppData\Local\LM Studio\models\publisher\model.gguf",
        r"C:\Users\Example\AppData\Local\GPT4All\model.gguf",
    ] {
        assert_eq!(classify_path(path), "AI Models");
    }

    for path in [
        r"C:\ProgramData\docker\windowsfilter\layer\file",
        r"C:\ProgramData\docker\containers\id\config.v2.json",
        r"C:\ProgramData\docker\volumes\volume\_data\blob",
        r"C:\Users\Example\.docker\desktop\vm-data\DockerDesktop.vhdx",
    ] {
        assert_eq!(classify_path(path), "Docker / Containers");
    }
}

#[test]
fn category_fingerprint_is_stable_for_reordered_extensions() {
    let first = rules(config(&[("Documents", &["TXT", ".pdf"])], None));
    let second = rules(config(&[("Documents", &["pdf", "txt"])], None));
    assert_eq!(first.fingerprint(), second.fingerprint());
}

#[test]
fn category_fingerprint_changes_when_mapping_changes() {
    let first = rules(config(&[("Documents", &["pdf"])], None));
    let second = rules(config(&[("Archives", &["pdf"])], None));
    assert_ne!(first.fingerprint(), second.fingerprint());
}

#[test]
fn category_fingerprint_changes_when_path_rules_change() {
    let first = rules(config(&[], Some(&[("AI Models", &[".ollama/models"])])));
    let second = rules(config(
        &[],
        Some(&[("Docker / Containers", &[".ollama/models"])]),
    ));
    assert_ne!(first.fingerprint(), second.fingerprint());
}

#[test]
fn old_style_category_config_without_path_rules_still_loads() {
    let value: serde_json::Value =
        serde_json::from_str(r#"{"categories":{"Documents":["pdf"]}}"#)
            .expect("old category config parses");
    let mut categories = NameMap::new();
    for (name, items) in value["categories"].as_object().expect("categories") {
        categories.insert(
            name.clone(),
            items
                .as_array()
                .expect("extensions")
                .iter()
                .map(|item| item.as_str().expect("extension").to_string())
                .collect(),
        );
    }
    assert!(value.get("path_rules").is_none());
    let config = CategoryConfig {
        version: CATEGORY_CONFIG_VERSION,
        categories,
        path_rules: None,
    };
    let rules = CategoryRules::from_config(config, "test".to_string()).expect("rules");
    assert_eq!(
        rules.classify(r"C:\Users\Example\.ollama\models\blobs\sha256-abc"),
        "AI Models"
    );
}

#[test]
fn normal_forms_of_extensions_and_fragments() {
    assert_eq!(normalize_extension(" ..TXT "), "txt");
    assert_eq!(normalize_extension("..."), "");
    assert_eq!(normalize_path_fragment(r"  \\A\/B//c\ "), "a/b/c");
    assert_eq!(normalize_path_fragment("///"), "");
}

#[test]
fn fingerprint_is_the_fnv_hash_of_the_canonical_text() {
    fn fnv(bytes: &[u8]) -> u64 {
        let mut hash = 0xcbf29ce484222325u64;
        for byte in bytes {
            hash ^= u64::from(*byte);
            hash = hash.wrapping_mul(0x100000001b3);
        }
        hash
    }
    let made = rules(config(
        &[("B", &["Zip", ".7z"]), ("A", &[])],
        Some(&[("P\u{e4}th", &[r"X\Y"])]),
    ));
    let text = "dscan11-category-rules-v2\nextensions\nA\0\nB\x007z\0zip\0\npath-rules\nP\u{e4}th\0x/y\0\n";
    assert_eq!(
        made.fingerprint(),
        format!("fnv1a64:{:016x}", fnv(text.as_bytes()))
    );
    assert_eq!(made.source(), "test");
}

#[test]
fn bad_category_configs_are_refused() {
    assert_eq!(
        refusal(config(&[("  ", &["a"])], None)),
        "category config contains an empty category name"
    );
    assert_eq!(
        refusal(config(&[("A", &["x"]), ("B", &[".X"])], None)),
        "category config assigns .x to both A and B"
    );
    assert_eq!(
        refusal(config(&[], Some(&[(" ", &["a"])]))),
        "category config contains an empty path rule category name"
    );
    assert_eq!(
        refusal(config(&[], Some(&[("A", &["q\"\t/r"]), ("B", &["Q\"\t/R"])]))),
        "category config assigns path rule \"q\\\"\\t/r\" to both A and B"
    );
}

#[test]
fn names_that_trim_to_one_category_keep_the_later_list() {
    let made = rules(config(&[(" A", &["one"]), ("A", &["two"])], Some(&[])));
    assert_eq!(made.classify(r"C:\f.two"), "A");
    assert_eq!(made.classify(r"C:\f.one"), "Other");
}

#[test]
fn rules_come_from_the_file_or_are_built_in() {
    let missing = load_category_rules("c.json", FileRead::Missing("none".to_string()))
        .expect("built-in rules");
    assert_eq!(missing.source(), "builtin");
    assert_eq!(missing.fingerprint(), builtin_rules().fingerprint());
    let read = load_category_rules("c.json", FileRead::Parsed(config(&[("A", &["x"])], Some(&[]))))
        .expect("rules");
    assert_eq!(read.source(), "c.json");
    assert_eq!(read.classify("f.X"), "A");
    let failed = load_category_rules("c.json", FileRead::Failed("denied".to_string()));
    assert_eq!(
        failed.expect_err("failed").text(),
        "failed to read category config c.json: denied"
    );
    let broken = load_category_rules("c.json", FileRead::Unparsed("eof".to_string()));
    match broken {
        Err(CliError::Json { context, source }) => {
            assert_eq!(context, "failed to parse category config c.json");
            assert_eq!(source, "eof");
        }
        _ => panic!("a JSON error"),
    }
}

#[test]
fn config_init_categories_creates_default_category_config() {
    let created = init_category_config("categories.json", false);
    assert!(created.created);
    assert_eq!(created.source, "defaults");
    let defaults = CategoryConfig::default();
    assert!(defaults
        .categories
        .get("Videos")
        .expect("Videos")
        .iter()
        .any(|value| value == "mkv"));
    assert!(defaults
        .categories
        .get("Documents")
        .expect("Documents")
        .iter()
        .any(|value| value == "pdf"));
    let path_rules = defaults.path_rules.expect("path rules");
    assert!(path_rules
        .get("AI Models")
        .expect("AI Models")
        .iter()
        .any(|value| value == ".ollama/models"));
    assert!(path_rules
        .get("Docker / Containers")
        .expect("Docker / Containers")
        .iter()
        .any(|value| value == "ProgramData/docker/containers"));
}

#[test]
fn config_init_categories_does_not_overwrite_existing_file() {
    let kept = init_category_config("categories.json", true);
    assert!(!kept.created);
    assert_eq!(kept.source, "existing");
    assert_eq!(kept.category_config_path, "categories.json");
}

#[test]
fn changed_rules_are_noticed() {
    let rules = builtin_rules();
    let mut snapshot = Snapshot {
        version: SNAPSHOT_VERSION,
        scanned_at_unix: 0,
        roots: vec![],
        total_bytes: 0,
        total_allocated_bytes: 0,
        total_capacity_bytes: None,
        file_count: 0,
        folder_count: 0,
        categories: vec![],
        largest_files: vec![],
        largest_folders: vec![],
        skipped: vec![],
        access_denied_count: 0,
        category_rules_fingerprint: None,
        category_rules_source: None,
        scan_stats: ScanStats::default(),
    };
    assert_eq!(category_rules_status(&snapshot, &rules).changed_since_scan, None);
    snapshot.category_rules_fingerprint = Some(rules.fingerprint().to_string());
    assert_eq!(
        category_rules_status(&snapshot, &rules).changed_since_scan,
        Some(false)
    );
    snapshot.category_rules_fingerprint = Some("fnv1a64:0".to_string());
    assert_eq!(
        category_rules_status(&snapshot, &rules).changed_since_scan,
        Some(true)
    );
}

#[test]
fn path_rules_look_at_neither_case_nor_separators() {
    for path in [
        r"C:\Users\Example\.ollama\models\x.pdf",
        "c:/users/example/.OLLAMA/Models/x.pdf",
        r"C:\Users\\Example/.Ollama\/MODELS\x.pdf",
    ] {
        assert_eq!(classify_path(path), "AI Models");
    }
}

#[test]
fn one_changed_byte_changes_the_fingerprint() {
    let first = rules(config(&[("Documents", &["pdf"])], None));
    let second = rules(config(&[("Documents", &["pdg"])], None));
    let third = rules(config(&[("Documentt", &["pdf"])], None));
    assert_ne!(first.fingerprint(), second.fingerprint());
    assert_ne!(first.fingerprint(), third.fingerprint());
}

#[test]
fn config_init_categories_reports_json_result() {
    let path = workspace_cache_paths(PathStyle::Windows, r"C:\L\dscan11", "default")
        .expect("paths")
        .category_config_path;
    let result = init_category_config(&path, false);
    assert_eq!(result.created, true);
    assert_eq!(result.source, "defaults");
    assert!(result.category_config_path.ends_with("categories.json"));
}
