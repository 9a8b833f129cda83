use task_maker::cache::{names_of, same_names, Cache, CacheEntry, CacheMode, OutputName};
use task_maker::dag::execution::{
    Execution, ExecutionCommand, ExecutionResourcesUsage, ExecutionResult, ExecutionStatus,
    ExecutionTag,
};
use task_maker::dag::file::File;
use task_maker::fingerprint::fingerprint;
use task_maker::store::{FileStore, FileStoreKey};

fn result(status: ExecutionStatus) -> ExecutionResult {
    ExecutionResult {
        status,
        was_killed: false,
        was_cached: false,
        resources: ExecutionResourcesUsage::zero(),
        stdout: Some(b"out".to_vec()),
        stderr: None,
    }
}

#[test]
fn put_then_get_returns_the_bytes() {
    let mut store = FileStore::new(1000, 100);
    let key = store.put(vec![1, 2, 3]);
    assert_eq!(store.get(&key), Some(&vec![1, 2, 3]));
    assert!(store.has_key(&key));
    assert_eq!(store.size(), 3);
}

#[test]
fn put_then_get_of_nothing() {
    let mut store = FileStore::new(1000, 100);
    let key = store.put(Vec::new());
    assert_eq!(store.get(&key), Some(&Vec::new()));
    assert_eq!(key, FileStoreKey::from_content(&[]));
    assert_eq!(store.size(), 0);
}

#[test]
fn put_then_get_of_every_byte() {
    let mut store = FileStore::new(1000, 100);
    let all: Vec<u8> = (0..=255).collect();
    let key = store.put(all.clone());
    assert_eq!(store.get(&key), Some(&all));
}

#[test]
fn get_of_an_unknown_key_is_nothing() {
    let mut store = FileStore::new(1000, 100);
    store.put(b"a".to_vec());
    let key = FileStoreKey::from_content(b"b");
    assert_eq!(store.get(&key), None);
    assert!(!store.has_key(&key));
    assert_eq!(store.references(&key), 0);
}

#[test]
fn keys_differ_with_the_content() {
    assert_ne!(FileStoreKey::from_content(b"a"), FileStoreKey::from_content(b"b"));
    assert_eq!(FileStoreKey::from_content(b"a"), FileStoreKey::from_content(b"a"));
}

#[test]
fn the_key_is_the_blake2b_digest_of_the_bytes() {
    // BLAKE2b-256 of the empty input:
    // 0e5751c026e543b2e8ab2eb06099daa1d1e5df47778f7787faab45cdf12fe3a8
    let key = FileStoreKey::from_content(b"");
    assert_eq!(key.head, u128::from_le_bytes([
        0x0e, 0x57, 0x51, 0xc0, 0x26, 0xe5, 0x43, 0xb2, 0xe8, 0xab, 0x2e, 0xb0, 0x60, 0x99, 0xda, 0xa1,
    ]));
    assert_eq!(key.tail, u128::from_le_bytes([
        0xd1, 0xe5, 0xdf, 0x47, 0x77, 0x8f, 0x77, 0x87, 0xfa, 0xab, 0x45, 0xcd, 0xf1, 0x2f, 0xe3, 0xa8,
    ]));
}

#[test]
fn storing_twice_keeps_one_blob_and_its_references() {
    let mut store = FileStore::new(1000, 100);
    let key = store.put(b"twice".to_vec());
    assert!(store.retain(&key));
    let again = store.put(b"twice".to_vec());
    assert_eq!(key, again);
    assert_eq!(store.size(), 5);
    assert_eq!(store.references(&key), 1);
}

#[test]
fn references_are_counted_up_and_down() {
    let mut store = FileStore::new(1000, 100);
    let key = store.put(b"blob".to_vec());
    assert_eq!(store.references(&key), 0);
    assert!(store.retain(&key));
    assert!(store.retain(&key));
    assert_eq!(store.references(&key), 2);
    store.release(&key);
    assert_eq!(store.references(&key), 1);
    store.release(&key);
    store.release(&key);
    assert_eq!(store.references(&key), 0);
    let unknown = FileStoreKey::from_content(b"unknown");
    assert!(!store.retain(&unknown));
    store.release(&unknown);
    assert_eq!(store.size(), 4);
}

#[test]
fn nothing_is_evicted_at_or_below_the_maximum() {
    let mut store = FileStore::new(10, 2);
    let a = store.put(vec![0; 4]);
    let b = store.put(vec![1; 6]);
    assert!(store.evict().is_empty());
    assert!(store.has_key(&a) && store.has_key(&b));
    assert_eq!(store.size(), 10);
}

#[test]
fn the_oldest_blobs_without_references_go_first_down_to_the_minimum() {
    let mut store = FileStore::new(10, 5);
    let a = store.put(vec![0; 3]);
    let b = store.put(vec![1; 3]);
    let c = store.put(vec![2; 3]);
    let d = store.put(vec![3; 3]);
    assert_eq!(store.size(), 12);
    // 12 > 10: a goes (9 left), b goes (6 left), c goes (3 left, at most 5)
    assert_eq!(store.evict(), vec![a, b, c]);
    assert_eq!(store.size(), 3);
    assert!(store.has_key(&d));
    assert!(!store.has_key(&a) && !store.has_key(&b) && !store.has_key(&c));
}

#[test]
fn a_blob_with_a_reference_is_never_evicted() {
    let mut store = FileStore::new(5, 0);
    let a = store.put(vec![0; 3]);
    let b = store.put(vec![1; 3]);
    let c = store.put(vec![2; 3]);
    store.retain(&a);
    store.retain(&c);
    assert_eq!(store.evict(), vec![b]);
    assert_eq!(store.get(&a), Some(&vec![0; 3]));
    assert_eq!(store.get(&c), Some(&vec![2; 3]));
    // only referenced blobs are left: nothing more can go
    assert!(store.evict().is_empty());
    assert_eq!(store.size(), 6);
    store.release(&a);
    assert_eq!(store.evict(), vec![a]);
}

#[test]
fn storing_again_makes_a_blob_the_newest() {
    let mut store = FileStore::new(5, 3);
    let a = store.put(vec![0; 3]);
    let b = store.put(vec![1; 3]);
    store.put(vec![0; 3]);
    assert_eq!(store.evict(), vec![b]);
    assert!(store.has_key(&a));
}

#[test]
fn the_cache_gives_what_was_inserted() {
    let mut cache = Cache::new();
    assert_eq!(cache.len(), 0);
    let print = FileStoreKey::from_content(b"fingerprint");
    assert!(cache.lookup(&print).is_none());
    let key = FileStoreKey::from_content(b"output");
    cache.insert(CacheEntry {
        print,
        result: result(ExecutionStatus::ReturnCode(4)),
        names: vec![OutputName::Stdout, OutputName::File("a.out".to_string())],
        keys: vec![key, key],
    });
    let entry = cache.lookup(&print).unwrap();
    assert_eq!(entry.result, result(ExecutionStatus::ReturnCode(4)));
    assert_eq!(entry.keys, vec![key, key]);
    assert!(cache.lookup(&key).is_none());
    // an entry with the same fingerprint takes the place of the old one
    cache.insert(CacheEntry { print, result: result(ExecutionStatus::Success), names: vec![], keys: vec![] });
    assert_eq!(cache.len(), 1);
    assert_eq!(cache.lookup(&print).unwrap().result.status, ExecutionStatus::Success);
}

#[test]
fn the_names_of_the_outputs_follow_the_outputs() {
    let mut execution = Execution::new("e", ExecutionCommand::System("e".to_string()));
    assert!(names_of(&execution).is_empty());
    execution.output("b".to_string());
    execution.stderr();
    execution.output("a".to_string());
    let names = names_of(&execution);
    assert_eq!(names.len(), 3);
    assert!(names[0].same(&OutputName::Stderr));
    assert!(names[1].same(&OutputName::File("b".to_string())));
    assert!(names[2].same(&OutputName::File("a".to_string())));
    assert!(!names[1].same(&names[2]));
    assert!(same_names(&names, &names_of(&execution)));
    execution.stdout();
    assert!(!same_names(&names, &names_of(&execution)));
    assert_eq!(execution.outputs().len(), 4);
}

#[test]
fn the_cache_option_is_read_tag_by_tag() {
    let valid = vec!["compilation".to_string(), "generation".to_string(), "evaluation".to_string()];
    assert_eq!(CacheMode::try_from(&None, &valid), Ok(CacheMode::Everything));
    assert_eq!(CacheMode::try_from(&Some(String::new()), &valid), Ok(CacheMode::Nothing));
    assert_eq!(
        CacheMode::try_from(&Some("evaluation".to_string()), &valid),
        Ok(CacheMode::Except(vec!["evaluation".to_string()]))
    );
    assert_eq!(
        CacheMode::try_from(&Some("evaluation,compilation".to_string()), &valid),
        Ok(CacheMode::Except(vec!["evaluation".to_string(), "compilation".to_string()]))
    );
    assert_eq!(
        CacheMode::try_from(&Some("evaluation,nope,neither".to_string()), &valid),
        Err("nope".to_string())
    );
    assert_eq!(CacheMode::try_from(&Some("evaluation,".to_string()), &valid), Err(String::new()));
    assert_eq!(CacheMode::try_from(&Some(",".to_string()), &valid), Err(String::new()));
    assert_eq!(CacheMode::try_from(&Some("Evaluation".to_string()), &valid), Err("Evaluation".to_string()));
}

#[test]
fn the_policy_says_which_tags_use_the_cache() {
    let evaluation = Some(ExecutionTag::from("evaluation"));
    let compilation = Some(ExecutionTag::from("compilation"));
    assert!(CacheMode::Everything.is_cached(&evaluation));
    assert!(CacheMode::Everything.is_cached(&None));
    assert!(!CacheMode::Nothing.is_cached(&evaluation));
    assert!(!CacheMode::Nothing.is_cached(&None));
    let except = CacheMode::Except(vec!["evaluation".to_string()]);
    assert!(!except.is_cached(&evaluation));
    assert!(except.is_cached(&compilation));
    assert!(except.is_cached(&None));
}

#[test]
fn the_fingerprint_looks_at_content_not_at_identifiers() {
    let key = FileStoreKey::from_content(b"input");
    let make = |name: &str| {
        let mut execution = Execution::new(name, ExecutionCommand::System("sort".to_string()));
        execution.args(vec!["-n".to_string()]);
        let file = File::new(name);
        execution.input(&file, "numbers".to_string(), false);
        execution
    };
    let (first, second) = (make("first"), make("second"));
    assert_ne!(first.uuid, second.uuid);
    assert_eq!(fingerprint(&first, &vec![key]), fingerprint(&second, &vec![key]));

    // other content
    let other = FileStoreKey::from_content(b"other input");
    assert_ne!(fingerprint(&first, &vec![key]), fingerprint(&first, &vec![other]));
    // other arguments
    let mut changed = make("changed");
    changed.args(vec!["-r".to_string()]);
    assert_ne!(fingerprint(&first, &vec![key]), fingerprint(&changed, &vec![key]));
    // other command
    let mut local = make("local");
    local.command = ExecutionCommand::Local("sort".to_string());
    assert_ne!(fingerprint(&first, &vec![key]), fingerprint(&local, &vec![key]));
    // other limits
    let mut limited = make("limited");
    limited.limits.memory = Some(1024);
    assert_ne!(fingerprint(&first, &vec![key]), fingerprint(&limited, &vec![key]));
    // another path in the sandbox
    let mut moved = Execution::new("moved", ExecutionCommand::System("sort".to_string()));
    moved.args(vec!["-n".to_string()]);
    moved.input(&File::new("f"), "elsewhere".to_string(), false);
    assert_ne!(fingerprint(&first, &vec![key]), fingerprint(&moved, &vec![key]));
    // the standard input is not an input at a path
    let mut piped = Execution::new("piped", ExecutionCommand::System("sort".to_string()));
    piped.args(vec!["-n".to_string()]);
    piped.stdin(&File::new("f"));
    assert_ne!(fingerprint(&first, &vec![key]), fingerprint(&piped, &vec![key]));
}

#[test]
fn the_key_of_nothing_is_the_digest_of_the_empty_input() {
    let digest: [u8; 32] = [
        0x0e, 0x57, 0x51, 0xc0, 0x26, 0xe5, 0x43, 0xb2, 0xe8, 0xab, 0x2e, 0xb0, 0x60, 0x99, 0xda,
        0xa1, 0xd1, 0xe5, 0xdf, 0x47, 0x77, 0x8f, 0x77, 0x87, 0xfa, 0xab, 0x45, 0xcd, 0xf1, 0x2f,
        0xe3, 0xa8,
    ];
    let mut head = [0u8; 16];
    let mut tail = [0u8; 16];
    head.copy_from_slice(&digest[..16]);
    tail.copy_from_slice(&digest[16..]);
    let key = FileStoreKey::from_content(&[]);
    assert_eq!(key.head, u128::from_le_bytes(head));
    assert_eq!(key.tail, u128::from_le_bytes(tail));
    assert_eq!(key.head, 0xa1da9960b02eabe8b243e526c051570e);
}
