use kline::config::{KlineConfig, LimitsConfig, ServerConfig, StorageConfig, TtlConfig};
use kline::error::KlineError;
use kline::store::Kline;

fn small_config(max_key_size: usize, max_value_size: usize, max_keys: usize) -> KlineConfig {
    KlineConfig {
        storage: StorageConfig {
            data_dir: String::from("./data"),
            compaction_interval_secs: 60,
            max_log_size_mb: 100,
        },
        server: ServerConfig {
            port: 3000,
            bind_address: String::from("127.0.0.1"),
            max_connections: 1000,
        },
        limits: LimitsConfig { max_key_size, max_value_size, max_keys },
        ttl: TtlConfig { cleanup_interval_secs: 30, default_ttl_secs: None, max_ttl_secs: 60 },
    }
}

fn append_line(file: &mut Vec<u8>, line: &[u8]) {
    file.extend_from_slice(line);
    file.push(b'\n');
}

#[test]
fn open_empty_store() {
    let store = Kline::open(&Vec::new());
    assert_eq!(store.keys().len(), 0);
    assert_eq!(store.get(&b"a".to_vec()), None);
}

#[test]
fn put_then_get() {
    let mut store = Kline::open(&Vec::new());
    store.put(b"a".to_vec(), b"1".to_vec()).unwrap();
    assert_eq!(store.get(&b"a".to_vec()), Some(b"1".to_vec()));
    assert_eq!(store.keys(), vec![b"a".to_vec()]);
}

#[test]
fn put_overwrites() {
    let mut store = Kline::open(&Vec::new());
    store.put(b"a".to_vec(), b"1".to_vec()).unwrap();
    store.put(b"a".to_vec(), b"2".to_vec()).unwrap();
    assert_eq!(store.get(&b"a".to_vec()), Some(b"2".to_vec()));
    assert_eq!(store.keys().len(), 1);
}

#[test]
fn scenario_put_delete_then_reopen() {
    let mut file: Vec<u8> = Vec::new();
    let mut store = Kline::open(&Vec::new());
    append_line(&mut file, &store.put(b"a".to_vec(), b"1".to_vec()).unwrap());
    append_line(&mut file, &store.put(b"b".to_vec(), b"2".to_vec()).unwrap());
    append_line(&mut file, &store.delete(&b"a".to_vec()));

    assert_eq!(store.get(&b"a".to_vec()), None);
    assert_eq!(store.get(&b"b".to_vec()), Some(b"2".to_vec()));
    assert_eq!(store.keys(), vec![b"b".to_vec()]);

    let reopened = Kline::open(&file);
    assert_eq!(reopened.get(&b"a".to_vec()), None);
    assert_eq!(reopened.get(&b"b".to_vec()), Some(b"2".to_vec()));
    assert_eq!(reopened.keys(), vec![b"b".to_vec()]);
}

#[test]
fn round_trip_preserves_map() {
    let mut file: Vec<u8> = Vec::new();
    let mut store = Kline::open(&Vec::new());
    append_line(&mut file, &store.put(b"k1".to_vec(), b"v1".to_vec()).unwrap());
    append_line(&mut file, &store.put(b"k2".to_vec(), b"v2".to_vec()).unwrap());
    append_line(&mut file, &store.put(b"k1".to_vec(), b"v1b".to_vec()).unwrap());
    append_line(&mut file, &store.delete(&b"k2".to_vec()));
    append_line(&mut file, &store.put(b"k3".to_vec(), vec![0, 255, 10, 32]).unwrap());

    let reopened = Kline::open(&file);
    let mut live_keys = store.keys();
    let mut reopened_keys = reopened.keys();
    live_keys.sort();
    reopened_keys.sort();
    assert_eq!(live_keys, reopened_keys);
    for key in live_keys {
        assert_eq!(store.get(&key), reopened.get(&key));
    }
    assert_eq!(reopened.get(&b"k1".to_vec()), Some(b"v1b".to_vec()));
    assert_eq!(reopened.get(&b"k3".to_vec()), Some(vec![0, 255, 10, 32]));
}

#[test]
fn last_write_wins_on_replay() {
    let mut file: Vec<u8> = Vec::new();
    let mut store = Kline::open(&Vec::new());
    append_line(&mut file, &store.put(b"k".to_vec(), b"v1".to_vec()).unwrap());
    append_line(&mut file, &store.put(b"k".to_vec(), b"v2".to_vec()).unwrap());
    append_line(&mut file, &store.delete(&b"k".to_vec()));
    append_line(&mut file, &store.put(b"k".to_vec(), b"v3".to_vec()).unwrap());

    assert_eq!(store.get(&b"k".to_vec()), Some(b"v3".to_vec()));
    let reopened = Kline::open(&file);
    assert_eq!(reopened.get(&b"k".to_vec()), Some(b"v3".to_vec()));
}

#[test]
fn delete_missing_key_is_noop() {
    let mut store = Kline::open(&Vec::new());
    store.put(b"a".to_vec(), b"1".to_vec()).unwrap();
    let line = store.delete(&b"ghost".to_vec());
    assert!(!line.is_empty());
    assert_eq!(store.get(&b"a".to_vec()), Some(b"1".to_vec()));
    assert_eq!(store.keys(), vec![b"a".to_vec()]);
}

#[test]
fn key_too_large_has_no_effect() {
    let mut store = Kline::open_with_config(&Vec::new(), small_config(3, 100, 100));
    let r = store.put(b"abcd".to_vec(), b"1".to_vec());
    assert!(matches!(r, Err(KlineError::KeyTooLarge { size: 4, max: 3 })));
    assert_eq!(store.keys().len(), 0);
    assert_eq!(store.get(&b"abcd".to_vec()), None);
}

#[test]
fn value_too_large_has_no_effect() {
    let mut store = Kline::open_with_config(&Vec::new(), small_config(100, 2, 100));
    let r = store.put(b"a".to_vec(), b"123".to_vec());
    assert!(matches!(r, Err(KlineError::ValueTooLarge { size: 3, max: 2 })));
    assert_eq!(store.keys().len(), 0);
}

#[test]
fn database_full_rejects_new_key_but_not_overwrite() {
    let mut store = Kline::open_with_config(&Vec::new(), small_config(100, 100, 2));
    store.put(b"a".to_vec(), b"1".to_vec()).unwrap();
    store.put(b"b".to_vec(), b"2".to_vec()).unwrap();
    let r = store.put(b"c".to_vec(), b"3".to_vec());
    assert!(matches!(r, Err(KlineError::DatabaseFull { current: 2, max: 2 })));
    assert_eq!(store.get(&b"c".to_vec()), None);
    store.put(b"a".to_vec(), b"1b".to_vec()).unwrap();
    assert_eq!(store.get(&b"a".to_vec()), Some(b"1b".to_vec()));
    assert_eq!(store.keys().len(), 2);
}

#[test]
fn sizes_at_the_ceiling_are_accepted() {
    let mut store = Kline::open_with_config(&Vec::new(), small_config(3, 2, 1));
    store.put(b"abc".to_vec(), b"xy".to_vec()).unwrap();
    assert_eq!(store.get(&b"abc".to_vec()), Some(b"xy".to_vec()));
}

#[test]
fn deleting_frees_room_for_a_new_key() {
    let mut store = Kline::open_with_config(&Vec::new(), small_config(100, 100, 1));
    store.put(b"a".to_vec(), b"1".to_vec()).unwrap();
    assert!(matches!(
        store.put(b"b".to_vec(), b"2".to_vec()),
        Err(KlineError::DatabaseFull { current: 1, max: 1 })
    ));
    store.delete(&b"a".to_vec());
    store.put(b"b".to_vec(), b"2".to_vec()).unwrap();
    assert_eq!(store.get(&b"b".to_vec()), Some(b"2".to_vec()));
}

#[test]
fn empty_key_and_value_round_trip() {
    let mut file: Vec<u8> = Vec::new();
    let mut store = Kline::open(&Vec::new());
    append_line(&mut file, &store.put(Vec::new(), Vec::new()).unwrap());
    assert_eq!(store.get(&Vec::new()), Some(Vec::new()));
    let reopened = Kline::open(&file);
    assert_eq!(reopened.get(&Vec::new()), Some(Vec::new()));
    assert_eq!(reopened.keys(), vec![Vec::<u8>::new()]);
}

#[test]
fn compaction_preserves_reads() {
    let mut store = Kline::open(&Vec::new());
    store.put(b"a".to_vec(), b"1".to_vec()).unwrap();
    store.put(b"b".to_vec(), b"2".to_vec()).unwrap();
    store.put(b"a".to_vec(), b"1b".to_vec()).unwrap();
    store.delete(&b"b".to_vec());
    store.put(b"c".to_vec(), b"3".to_vec()).unwrap();

    let mut keys_before = store.keys();
    keys_before.sort();
    let gets_before: Vec<_> = keys_before.iter().map(|k| store.get(k)).collect();

    let lines = store.compact();

    let mut keys_after = store.keys();
    keys_after.sort();
    let gets_after: Vec<_> = keys_after.iter().map(|k| store.get(k)).collect();
    assert_eq!(keys_before, keys_after);
    assert_eq!(gets_before, gets_after);
    assert_eq!(lines.len(), 2);

    let mut compacted_file: Vec<u8> = Vec::new();
    for line in &lines {
        append_line(&mut compacted_file, line);
    }
    let reopened = Kline::open(&compacted_file);
    let mut reopened_keys = reopened.keys();
    reopened_keys.sort();
    assert_eq!(reopened_keys, keys_after);
    for key in &keys_after {
        assert_eq!(reopened.get(key), store.get(key));
    }
}

#[test]
fn interrupted_compaction_leaves_old_log_valid() {
    let mut file: Vec<u8> = Vec::new();
    let mut store = Kline::open(&Vec::new());
    append_line(&mut file, &store.put(b"a".to_vec(), b"1".to_vec()).unwrap());
    append_line(&mut file, &store.put(b"b".to_vec(), b"2".to_vec()).unwrap());
    append_line(&mut file, &store.delete(&b"a".to_vec()));

    // The compacted lines are written to a temporary file; the process dies
    // before the rename, so the live log path still holds the old bytes.
    let _discarded = store.compact();

    let reopened = Kline::open(&file);
    assert_eq!(reopened.get(&b"a".to_vec()), None);
    assert_eq!(reopened.get(&b"b".to_vec()), Some(b"2".to_vec()));
    assert_eq!(reopened.keys(), vec![b"b".to_vec()]);
}

#[test]
fn clear_empties_store_and_log() {
    let mut store = Kline::open(&Vec::new());
    store.put(b"a".to_vec(), b"1".to_vec()).unwrap();
    store.put(b"b".to_vec(), b"2".to_vec()).unwrap();
    let lines = store.clear();
    assert!(lines.is_empty());
    assert_eq!(store.keys().len(), 0);
    assert_eq!(store.get(&b"a".to_vec()), None);
}

#[test]
fn replay_skips_malformed_lines() {
    let mut file: Vec<u8> = Vec::new();
    {
        let mut writer = Kline::open(&Vec::new());
        append_line(&mut file, &writer.put(b"a".to_vec(), b"1".to_vec()).unwrap());
    }
    append_line(&mut file, b"garbage line");
    append_line(&mut file, b"put onlyonefield");
    append_line(&mut file, b"put bad!base64 dg==");
    append_line(&mut file, b"delete aGk= extra");
    append_line(&mut file, b"");
    {
        let mut writer = Kline::open(&Vec::new());
        append_line(&mut file, &writer.put(b"b".to_vec(), b"2".to_vec()).unwrap());
    }

    let store = Kline::open(&file);
    let mut keys = store.keys();
    keys.sort();
    assert_eq!(keys, vec![b"a".to_vec(), b"b".to_vec()]);
    assert_eq!(store.get(&b"a".to_vec()), Some(b"1".to_vec()));
    assert_eq!(store.get(&b"b".to_vec()), Some(b"2".to_vec()));
}

#[test]
fn truncated_final_line_is_skipped() {
    let mut file: Vec<u8> = Vec::new();
    let mut writer = Kline::open(&Vec::new());
    append_line(&mut file, &writer.put(b"a".to_vec(), b"1".to_vec()).unwrap());
    let second = writer.put(b"b".to_vec(), b"2".to_vec()).unwrap();
    // The process died mid-append: only half the record reached the disk,
    // and no newline follows it.
    file.extend_from_slice(&second[..second.len() / 2]);

    let store = Kline::open(&file);
    assert_eq!(store.get(&b"a".to_vec()), Some(b"1".to_vec()));
    assert_eq!(store.keys(), vec![b"a".to_vec()]);
}

#[test]
fn binary_keys_and_values_survive() {
    let mut file: Vec<u8> = Vec::new();
    let mut store = Kline::open(&Vec::new());
    let key = vec![0u8, 10, 13, 32, 255];
    let value = vec![10u8, 10, 32, 32, 0];
    append_line(&mut file, &store.put(key.clone(), value.clone()).unwrap());
    assert_eq!(store.get(&key), Some(value.clone()));

    let reopened = Kline::open(&file);
    assert_eq!(reopened.get(&key), Some(value));
}
