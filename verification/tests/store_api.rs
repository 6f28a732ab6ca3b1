use rearward::env::StoreOptions;
use rearward::registry::Registry;
use rearward::value::Value;

#[test]
fn test_rkv() {
    let mut registry = Registry::new();
    let idx = registry.get_or_create("test_db");
    let env = registry.env_mut(idx);
    let store = env.open_store("mydb", StoreOptions::create()).unwrap();
    {
        // Use a write transaction to mutate the store via a `Writer`.
        // There can be only one writer for a given environment at a time.
        let mut writer = env.begin_write().unwrap();

        store.put(&mut writer, b"int", &Value::SignedInteger(1234)).unwrap();
        store.put(&mut writer, b"uint", &Value::UnsignedInteger(1234u64)).unwrap();
        store.put(&mut writer, b"float", &Value::Float(1234.0f64.to_bits())).unwrap();
        store.put(&mut writer, b"instant", &Value::Instant(1528318073700)).unwrap();
        store.put(&mut writer, b"boolean", &Value::Boolean(true)).unwrap();
        store.put(&mut writer, b"string", &Value::Str("Héllo, wörld!".to_string())).unwrap();
        store
            .put(&mut writer, b"json", &Value::Json(r#"{"foo":"bar", "number": 1}"#.to_string()))
            .unwrap();
        store.put(&mut writer, b"blob", &Value::Blob(b"blob".to_vec())).unwrap();

        // A write transaction must be committed before the writer ends,
        // or the data will not persist.
        writer.commit(env).unwrap();
    }
    {
        // Use a read transaction to query the store via a `Reader`.
        let reader = env.begin_read();

        assert_eq!(store.get(&reader, b"int").unwrap(), Some(Value::SignedInteger(1234)));
        assert_eq!(store.get(&reader, b"uint").unwrap(), Some(Value::UnsignedInteger(1234)));
        assert_eq!(store.get(&reader, b"float").unwrap(), Some(Value::Float(1234.0f64.to_bits())));
        assert_eq!(store.get(&reader, b"instant").unwrap(), Some(Value::Instant(1528318073700)));
        assert_eq!(store.get(&reader, b"boolean").unwrap(), Some(Value::Boolean(true)));
        assert_eq!(
            store.get(&reader, b"string").unwrap(),
            Some(Value::Str("Héllo, wörld!".to_string()))
        );
        assert_eq!(
            store.get(&reader, b"json").unwrap(),
            Some(Value::Json(r#"{"foo":"bar", "number": 1}"#.to_string()))
        );
        assert_eq!(store.get(&reader, b"blob").unwrap(), Some(Value::Blob(b"blob".to_vec())));

        // Retrieving a non-existent value returns None.
        assert_eq!(store.get(&reader, b"non-existent").unwrap(), None);
    }

    {
        // Aborting a write transaction rolls back the change(s).
        let mut writer = env.begin_write().unwrap();
        store.put(&mut writer, b"foo", &Value::Str("bar".to_string())).unwrap();
        writer.abort(env);
        let reader = env.begin_read();
        assert_eq!(store.get(&reader, b"foo").unwrap(), None);
    }

    {
        // A writer that ends without committing publishes nothing.
        {
            let mut writer = env.begin_write().unwrap();
            store.put(&mut writer, b"foo", &Value::Str("bar".to_string())).unwrap();
            writer.abort(env);
        }
        let reader = env.begin_read();
        assert_eq!(store.get(&reader, b"foo").unwrap(), None);
    }

    {
        // Deleting a key/value pair also requires a write transaction.
        let mut writer = env.begin_write().unwrap();
        store.put(&mut writer, b"foo", &Value::Str("bar".to_string())).unwrap();
        store.put(&mut writer, b"bar", &Value::Str("baz".to_string())).unwrap();
        store.delete(&mut writer, b"foo").unwrap();

        // A write transaction also supports reading, and its view
        // includes its own uncommitted changes.
        assert_eq!(store.get(&writer, b"foo").unwrap(), None);
        assert_eq!(store.get(&writer, b"bar").unwrap(), Some(Value::Str("baz".to_string())));

        // But a reader does not see those changes until the commit.
        {
            let reader = env.begin_read();
            assert_eq!(store.get(&reader, b"foo").unwrap(), None);
            assert_eq!(store.get(&reader, b"bar").unwrap(), None);
        }
        writer.commit(env).unwrap();
        {
            let reader = env.begin_read();
            assert_eq!(store.get(&reader, b"foo").unwrap(), None);
            assert_eq!(store.get(&reader, b"bar").unwrap(), Some(Value::Str("baz".to_string())));
        }
    }

    {
        // Clearing all the entries in the store with a write transaction.
        {
            let mut writer = env.begin_write().unwrap();
            store.put(&mut writer, b"foo", &Value::Str("bar".to_string())).unwrap();
            store.put(&mut writer, b"bar", &Value::Str("baz".to_string())).unwrap();
            writer.commit(env).unwrap();
        }

        {
            let mut writer = env.begin_write().unwrap();
            store.clear(&mut writer).unwrap();
            writer.commit(env).unwrap();
        }

        {
            let reader = env.begin_read();
            assert_eq!(store.get(&reader, b"foo").unwrap(), None);
            assert_eq!(store.get(&reader, b"bar").unwrap(), None);
        }
    }
}

#[test]
fn test_rkv_iterators() {
    let mut registry = Registry::new();
    let idx = registry.get_or_create("iterator");
    let env = registry.env_mut(idx);
    let store = env.open_store("store", StoreOptions::create()).unwrap();

    {
        let mut writer = env.begin_write().unwrap();
        for (country, city) in vec![
            ("Canada", Value::Str("Ottawa".to_string())),
            ("United_States of America", Value::Str("Washington".to_string())),
            ("Germany", Value::Str("Berlin".to_string())),
            ("France", Value::Str("Paris".to_string())),
            ("Italy", Value::Str("Rome".to_string())),
            ("United_Kingdom", Value::Str("London".to_string())),
            ("Japan", Value::Str("Tokyo".to_string())),
        ] {
            store.put(&mut writer, country.as_bytes(), &city).unwrap();
        }
        writer.commit(env).unwrap();
    }

    let reader = env.begin_read();

    // Iterating from the beginning yields the (key, value) tuples in
    // ascending key order.
    let mut iter = store.iter_start(&reader).unwrap();
    let expected = vec![
        ("Canada", "Ottawa"),
        ("France", "Paris"),
        ("Germany", "Berlin"),
        ("Italy", "Rome"),
        ("Japan", "Tokyo"),
        ("United_Kingdom", "London"),
        ("United_States of America", "Washington"),
    ];
    for (country, city) in expected {
        let (k, v) = iter.next().unwrap();
        assert_eq!(k, country.as_bytes().to_vec());
        assert_eq!(v, Value::Str(city.to_string()));
    }
    assert!(iter.next().is_none());

    // Iterating from a given key starts at the first key equal to or
    // greater than it.
    let mut iter = store.iter_from(&reader, b"Japan").unwrap();
    let expected = vec![
        ("Japan", "Tokyo"),
        ("United_Kingdom", "London"),
        ("United_States of America", "Washington"),
    ];
    for (country, city) in expected {
        let (k, v) = iter.next().unwrap();
        assert_eq!(k, country.as_bytes().to_vec());
        assert_eq!(v, Value::Str(city.to_string()));
    }
    assert!(iter.next().is_none());

    // Iterating from a given prefix.
    let mut iter = store.iter_from(&reader, "United Kin".as_bytes()).unwrap();
    let expected =
        vec![("United_Kingdom", "London"), ("United_States of America", "Washington")];
    for (country, city) in expected {
        let (k, v) = iter.next().unwrap();
        assert_eq!(k, country.as_bytes().to_vec());
        assert_eq!(v, Value::Str(city.to_string()));
    }
    assert!(iter.next().is_none());
}
