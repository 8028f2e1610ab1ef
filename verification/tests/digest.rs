use mutation_orchestrator::config::{FilterArgs, MutationRunConfig};
use mutation_orchestrator::digest::{
    context_digest, runtime_context, runtime_context_digest, RuntimeContext,
};
use mutation_orchestrator::pattern::GlobPattern;
use regex::Regex;
use std::collections::hash_map::DefaultHasher;
use std::hash::{Hash, Hasher};

/// The digest on this machine.
fn digest(config: &MutationRunConfig, evm_opts: Option<&Vec<u8>>) -> u64 {
    runtime_context_digest(config, evm_opts, is_big_endian())
}

fn is_big_endian() -> bool {
    1u16.to_ne_bytes() == [0, 1]
}

fn no_filter() -> FilterArgs {
    FilterArgs {
        test_pattern: None,
        test_pattern_inverse: None,
        contract_pattern: None,
        contract_pattern_inverse: None,
        path_pattern: None,
        path_pattern_inverse: None,
    }
}

fn config(filter_args: FilterArgs, isolate: bool) -> MutationRunConfig {
    MutationRunConfig {
        mutate_paths: Vec::new(),
        mutate_path_pattern: None,
        mutate_contract_pattern: None,
        num_workers: 0,
        show_progress: false,
        json_output: false,
        filter_args,
        isolate,
    }
}

fn regex(text: &str) -> Option<Regex> {
    Some(Regex::new(text).unwrap())
}

fn glob(text: &str) -> Option<GlobPattern> {
    Some(GlobPattern { text: text.to_string() })
}

fn full_filter() -> FilterArgs {
    FilterArgs {
        test_pattern: regex("test_.*"),
        test_pattern_inverse: regex("slow"),
        contract_pattern: regex("^Token$"),
        contract_pattern_inverse: regex("Mock|Stub"),
        path_pattern: glob("test/**/*.t.sol"),
        path_pattern_inverse: glob("test/fork/*"),
    }
}

/// The digest as the hashing traits of the standard library make it.
fn expected(texts: [Option<&str>; 6], isolate: bool, evm_opts: Option<&Vec<u8>>) -> u64 {
    let mut hasher = DefaultHasher::new();
    for text in texts {
        text.hash(&mut hasher);
    }
    isolate.hash(&mut hasher);
    if let Some(blob) = evm_opts {
        blob.hash(&mut hasher);
    }
    hasher.finish()
}

#[test]
fn digest_of_an_empty_filter_is_that_of_the_hash_traits() {
    let config = config(no_filter(), false);
    assert_eq!(digest(&config, None), expected([None; 6], false, None));
}

#[test]
fn digest_of_a_full_filter_is_that_of_the_hash_traits() {
    let blob: Vec<u8> = br#"{"fork_url":"http://localhost:8545","fork_block_number":7}"#.to_vec();
    let config = config(full_filter(), true);
    let texts = [
        Some("test_.*"),
        Some("slow"),
        Some("^Token$"),
        Some("Mock|Stub"),
        Some("test/**/*.t.sol"),
        Some("test/fork/*"),
    ];
    assert_eq!(digest(&config, Some(&blob)), expected(texts, true, Some(&blob)));
}

#[test]
fn digest_of_text_beyond_ascii_is_that_of_the_hash_traits() {
    let mut filter = no_filter();
    filter.contract_pattern = regex("Gr\u{fc}\u{df}e\u{4e16}\u{1f980}");
    let config = config(filter, false);
    let text = Some("Gr\u{fc}\u{df}e\u{4e16}\u{1f980}");
    let texts = [None, None, text, None, None, None];
    assert_eq!(digest(&config, None), expected(texts, false, None));
}

#[test]
fn digest_of_a_long_blob_is_that_of_the_hash_traits() {
    let blob: Vec<u8> = vec![0xa5; 70_000];
    let config = config(no_filter(), false);
    assert_eq!(
        digest(&config, Some(&blob)),
        expected([None; 6], false, Some(&blob))
    );
}

#[test]
fn every_setting_changes_the_digest() {
    let blob: Vec<u8> = vec![1, 2, 3];
    let other: Vec<u8> = vec![1, 2, 4];
    let mut digests = vec![
        digest(&config(no_filter(), false), Some(&blob)),
        digest(&config(no_filter(), true), Some(&blob)),
        digest(&config(no_filter(), false), Some(&other)),
        digest(&config(no_filter(), false), Some(&Vec::new())),
        digest(&config(no_filter(), false), None),
    ];
    let mut filter = no_filter();
    filter.test_pattern = regex("a");
    digests.push(digest(&config(filter, false), Some(&blob)));
    let mut filter = no_filter();
    filter.test_pattern_inverse = regex("a");
    digests.push(digest(&config(filter, false), Some(&blob)));
    let mut filter = no_filter();
    filter.contract_pattern = regex("a");
    digests.push(digest(&config(filter, false), Some(&blob)));
    let mut filter = no_filter();
    filter.contract_pattern_inverse = regex("a");
    digests.push(digest(&config(filter, false), Some(&blob)));
    let mut filter = no_filter();
    filter.path_pattern = glob("a");
    digests.push(digest(&config(filter, false), Some(&blob)));
    let mut filter = no_filter();
    filter.path_pattern_inverse = glob("a");
    digests.push(digest(&config(filter, false), Some(&blob)));
    let mut filter = no_filter();
    filter.test_pattern = regex("");
    digests.push(digest(&config(filter, false), Some(&blob)));
    for i in 0..digests.len() {
        for j in 0..i {
            assert_ne!(digests[i], digests[j]);
        }
    }
}

#[test]
fn settings_beyond_the_context_leave_the_digest_alone() {
    let blob: Vec<u8> = vec![9];
    let mut changed = config(full_filter(), true);
    changed.num_workers = 12;
    changed.show_progress = true;
    changed.json_output = true;
    changed.mutate_paths = vec!["src/A.sol".to_string()];
    changed.mutate_path_pattern = glob("src/*");
    changed.mutate_contract_pattern = regex("A");
    assert_eq!(
        digest(&changed, Some(&blob)),
        digest(&config(full_filter(), true), Some(&blob))
    );
}

#[test]
fn context_carries_the_texts_of_the_patterns() {
    let blob: Vec<u8> = vec![4, 2];
    let config = config(full_filter(), true);
    let context = runtime_context(&config, Some(&blob));
    assert_eq!(context.test_pattern, Some("test_.*"));
    assert_eq!(context.test_pattern_inverse, Some("slow"));
    assert_eq!(context.contract_pattern, Some("^Token$"));
    assert_eq!(context.contract_pattern_inverse, Some("Mock|Stub"));
    assert_eq!(context.path_pattern, Some("test/**/*.t.sol"));
    assert_eq!(context.path_pattern_inverse, Some("test/fork/*"));
    assert!(context.isolate);
    assert_eq!(context.evm_opts, Some(&blob));
}

#[test]
fn digest_follows_the_byte_order() {
    let context = RuntimeContext {
        test_pattern: Some("x"),
        test_pattern_inverse: None,
        contract_pattern: None,
        contract_pattern_inverse: None,
        path_pattern: None,
        path_pattern_inverse: None,
        isolate: false,
        evm_opts: None,
    };
    let native_is_big = is_big_endian();
    let texts = [Some("x"), None, None, None, None, None];
    assert_eq!(context_digest(&context, native_is_big), expected(texts, false, None));
    assert_ne!(context_digest(&context, !native_is_big), expected(texts, false, None));
}

#[test]
fn patterns_do_not_run_into_each_other() {
    let mut joined = no_filter();
    joined.test_pattern = regex("ab");
    joined.test_pattern_inverse = regex("");
    let mut split = no_filter();
    split.test_pattern = regex("a");
    split.test_pattern_inverse = regex("b");
    assert_ne!(
        digest(&config(joined, false), None),
        digest(&config(split, false), None)
    );
}
