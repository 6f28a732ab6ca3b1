use rearward::env::Environment;
use rearward::env::StoreOptions;
use rearward::registry::Registry;
use rearward::service::GrpcRearwardService;
use rearward::value::StoreError;
use rearward::value::Value;

#[test]
fn isolation_reader_sees_only_its_snapshot() {
    let mut env = Environment::new();
    let store = env.open_store("db", StoreOptions::create()).unwrap();
    {
        let mut w = env.begin_write().unwrap();
        store.put(&mut w, b"a", &Value::SignedInteger(1)).unwrap();
        w.commit(&mut env).unwrap();
    }
    // A reader begun now must keep returning exactly {a: 1}, whatever a
    // later writer does.
    let reader = env.begin_read();
    let mut w = env.begin_write().unwrap();
    store.put(&mut w, b"a", &Value::SignedInteger(2)).unwrap();
    store.put(&mut w, b"b", &Value::SignedInteger(3)).unwrap();
    assert_eq!(store.get(&reader, b"a").unwrap(), Some(Value::SignedInteger(1)));
    assert_eq!(store.get(&reader, b"b").unwrap(), None);
    w.commit(&mut env).unwrap();
    assert_eq!(store.get(&reader, b"a").unwrap(), Some(Value::SignedInteger(1)));
    assert_eq!(store.get(&reader, b"b").unwrap(), None);
    // A reader begun after the commit observes it in full.
    let fresh = env.begin_read();
    assert_eq!(store.get(&fresh, b"a").unwrap(), Some(Value::SignedInteger(2)));
    assert_eq!(store.get(&fresh, b"b").unwrap(), Some(Value::SignedInteger(3)));
}

#[test]
fn read_your_writes_within_writer() {
    let mut env = Environment::new();
    let store = env.open_store("db", StoreOptions::create()).unwrap();
    let mut w = env.begin_write().unwrap();
    store.put(&mut w, b"k", &Value::Boolean(true)).unwrap();
    assert_eq!(store.get(&w, b"k").unwrap(), Some(Value::Boolean(true)));
    store.delete(&mut w, b"k").unwrap();
    assert_eq!(store.get(&w, b"k").unwrap(), None);
    store.put(&mut w, b"k", &Value::Boolean(false)).unwrap();
    // Nothing is visible to a concurrently active reader before commit.
    let reader = env.begin_read();
    assert_eq!(store.get(&reader, b"k").unwrap(), None);
    w.commit(&mut env).unwrap();
}

#[test]
fn atomicity_abort_publishes_nothing() {
    let mut env = Environment::new();
    let store = env.open_store("db", StoreOptions::create()).unwrap();
    let mut w = env.begin_write().unwrap();
    store.put(&mut w, b"a", &Value::SignedInteger(1)).unwrap();
    store.put(&mut w, b"b", &Value::SignedInteger(2)).unwrap();
    w.abort(&mut env);
    let reader = env.begin_read();
    assert_eq!(store.get(&reader, b"a").unwrap(), None);
    assert_eq!(store.get(&reader, b"b").unwrap(), None);
}

#[test]
fn single_writer_exclusion() {
    let mut env = Environment::new();
    let store = env.open_store("db", StoreOptions::create()).unwrap();
    let w1 = env.begin_write().unwrap();
    // While a writer is active, a second write attempt reports busy and
    // never reaches "active".
    assert!(matches!(env.begin_write(), Err(StoreError::WriterBusy)));
    assert!(matches!(env.begin_write(), Err(StoreError::WriterBusy)));
    // Only after the first writer reaches a terminal state can the next
    // one start.
    w1.commit(&mut env).unwrap();
    let mut w2 = env.begin_write().unwrap();
    store.put(&mut w2, b"x", &Value::Boolean(true)).unwrap();
    w2.abort(&mut env);
    let w3 = env.begin_write().unwrap();
    w3.abort(&mut env);
}

#[test]
fn idempotent_delete_of_absent_key() {
    let mut env = Environment::new();
    let store = env.open_store("db", StoreOptions::create()).unwrap();
    {
        let mut w = env.begin_write().unwrap();
        store.put(&mut w, b"keep", &Value::SignedInteger(7)).unwrap();
        w.commit(&mut env).unwrap();
    }
    let mut w = env.begin_write().unwrap();
    // Deleting a key that is not there succeeds...
    store.delete(&mut w, b"absent").unwrap();
    w.commit(&mut env).unwrap();
    // ...and leaves the store unchanged.
    let reader = env.begin_read();
    let mut iter = store.iter_start(&reader).unwrap();
    let (k, v) = iter.next().unwrap();
    assert_eq!(k, b"keep".to_vec());
    assert_eq!(v, Value::SignedInteger(7));
    assert!(iter.next().is_none());
}

#[test]
fn clear_then_commit_leaves_nothing_to_iterate() {
    let mut env = Environment::new();
    let store = env.open_store("db", StoreOptions::create()).unwrap();
    {
        let mut w = env.begin_write().unwrap();
        store.put(&mut w, b"a", &Value::SignedInteger(1)).unwrap();
        store.put(&mut w, b"b", &Value::SignedInteger(2)).unwrap();
        w.commit(&mut env).unwrap();
    }
    {
        let mut w = env.begin_write().unwrap();
        store.clear(&mut w).unwrap();
        w.commit(&mut env).unwrap();
    }
    let reader = env.begin_read();
    let mut iter = store.iter_start(&reader).unwrap();
    assert_eq!(iter.remaining(), 0);
    assert!(iter.next().is_none());
    // Exhaustion is terminal.
    assert!(iter.next().is_none());
}

#[test]
fn scenario_int_and_missing_key() {
    let mut env = Environment::new();
    let store = env.open_store("db", StoreOptions::create()).unwrap();
    let mut w = env.begin_write().unwrap();
    store.put(&mut w, b"int", &Value::SignedInteger(1234)).unwrap();
    w.commit(&mut env).unwrap();
    let reader = env.begin_read();
    assert_eq!(store.get(&reader, b"int").unwrap(), Some(Value::SignedInteger(1234)));
    assert_eq!(store.get(&reader, b"missing").unwrap(), None);
}

#[test]
fn scenario_iter_from_last_key() {
    let mut env = Environment::new();
    let store = env.open_store("db", StoreOptions::create()).unwrap();
    let mut w = env.begin_write().unwrap();
    store.put(&mut w, b"Canada", &Value::Str("Ottawa".to_string())).unwrap();
    store.put(&mut w, b"France", &Value::Str("Paris".to_string())).unwrap();
    store.put(&mut w, b"Japan", &Value::Str("Tokyo".to_string())).unwrap();
    w.commit(&mut env).unwrap();
    let reader = env.begin_read();
    let mut iter = store.iter_from(&reader, b"Japan").unwrap();
    let (k, v) = iter.next().unwrap();
    assert_eq!(k, b"Japan".to_vec());
    assert_eq!(v, Value::Str("Tokyo".to_string()));
    assert!(iter.next().is_none());
}

#[test]
fn iter_from_past_every_key_is_exhausted() {
    let mut env = Environment::new();
    let store = env.open_store("db", StoreOptions::create()).unwrap();
    let mut w = env.begin_write().unwrap();
    store.put(&mut w, b"alpha", &Value::SignedInteger(1)).unwrap();
    store.put(&mut w, b"beta", &Value::SignedInteger(2)).unwrap();
    w.commit(&mut env).unwrap();
    let reader = env.begin_read();
    // No key is at or above the start key, so the cursor starts spent.
    let mut iter = store.iter_from(&reader, b"zzz").unwrap();
    assert_eq!(iter.remaining(), 0);
    assert!(iter.next().is_none());
    // A start key below every key yields the whole sequence.
    let mut iter = store.iter_from(&reader, b"").unwrap();
    assert_eq!(iter.remaining(), 2);
    assert_eq!(iter.next().unwrap().0, b"alpha".to_vec());
    assert_eq!(iter.next().unwrap().0, b"beta".to_vec());
    assert!(iter.next().is_none());
}

#[test]
fn open_store_missing_without_create_fails() {
    let mut env = Environment::new();
    assert_eq!(
        env.open_store("nope", StoreOptions::existing()).err(),
        Some(StoreError::NotFound)
    );
    // Creating, then opening as existing, both succeed; opening twice
    // returns equivalent handles, never duplicate storage.
    let s1 = env.open_store("db", StoreOptions::create()).unwrap();
    let s2 = env.open_store("db", StoreOptions::create()).unwrap();
    let s3 = env.open_store("db", StoreOptions::existing()).unwrap();
    let mut w = env.begin_write().unwrap();
    s1.put(&mut w, b"k", &Value::SignedInteger(1)).unwrap();
    assert_eq!(s2.get(&w, b"k").unwrap(), Some(Value::SignedInteger(1)));
    assert_eq!(s3.get(&w, b"k").unwrap(), Some(Value::SignedInteger(1)));
    w.abort(&mut env);
}

#[test]
fn store_unknown_to_transaction_is_not_found() {
    let mut env = Environment::new();
    let early = env.open_store("early", StoreOptions::create()).unwrap();
    let mut w = env.begin_write().unwrap();
    // A store created after this writer began is not in its snapshot.
    let late = env.open_store("late", StoreOptions::create()).unwrap();
    assert_eq!(late.put(&mut w, b"k", &Value::Boolean(true)).err(), Some(StoreError::NotFound));
    assert_eq!(late.get(&w, b"k").err(), Some(StoreError::NotFound));
    assert!(early.put(&mut w, b"k", &Value::Boolean(true)).is_ok());
    w.abort(&mut env);
    let reader = env.begin_read();
    assert!(late.get(&reader, b"k").is_ok());
    assert!(late.iter_start(&reader).is_ok());
}

#[test]
fn registry_returns_one_environment_per_location() {
    let mut registry = Registry::new();
    let a = registry.get_or_create("first_db");
    let b = registry.get_or_create("second_db");
    let a2 = registry.get_or_create("first_db");
    assert_eq!(a, a2);
    assert_ne!(a, b);
    // State written through one lookup is seen through the next: the
    // lookups share one environment.
    let store = {
        let env = registry.env_mut(a);
        let store = env.open_store("db", StoreOptions::create()).unwrap();
        let mut w = env.begin_write().unwrap();
        store.put(&mut w, b"k", &Value::UnsignedInteger(9)).unwrap();
        w.commit(env).unwrap();
        store
    };
    let again = registry.get_or_create("first_db");
    assert_eq!(again, a);
    let env = registry.env(again);
    let reader = env.begin_read();
    assert_eq!(store.get(&reader, b"k").unwrap(), Some(Value::UnsignedInteger(9)));
    // The other location's environment is independent and empty.
    let other = registry.env_mut(b);
    assert_eq!(
        other.open_store("db", StoreOptions::existing()).err(),
        Some(StoreError::NotFound)
    );
}

#[test]
fn healthcheck_answers_for_reachability() {
    let env = Environment::new();
    let service = GrpcRearwardService::default();
    assert_eq!(service.healthcheck(Some(&env)), Ok(()));
    assert_eq!(service.healthcheck(None), Err(StoreError::Location));
}
