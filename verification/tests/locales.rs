use metw_mailer::table::Table;
use metw_mailer::Locales;

#[test]
fn locales_from_known_names() {
    assert_eq!(Locales::from("en_US"), Ok(Locales::en_US));
    assert_eq!(Locales::from("tr"), Ok(Locales::tr));
}

#[test]
fn locales_from_unknown_name() {
    assert_eq!(Locales::from("de"), Err(String::from("unknown locale: de")));
    assert_eq!(Locales::from(""), Err(String::from("unknown locale: ")));
    assert_eq!(Locales::from("en_us"), Err(String::from("unknown locale: en_us")));
}

#[test]
fn table_insert_then_get() {
    let mut t: Table<String, String> = Table::new();
    assert_eq!(t.len(), 0);
    t.insert("a".to_string(), "1".to_string());
    t.insert("b".to_string(), "2".to_string());
    assert_eq!(t.get(&"a".to_string()), Some(&"1".to_string()));
    assert_eq!(t.get(&"b".to_string()), Some(&"2".to_string()));
    assert_eq!(t.get(&"c".to_string()), None);
    t.insert("a".to_string(), "3".to_string());
    assert_eq!(t.len(), 2);
    assert_eq!(t.get(&"a".to_string()), Some(&"3".to_string()));
    assert!(t.contains_key(&"b".to_string()));
    assert!(!t.contains_key(&"c".to_string()));
    let (k, v) = t.entry(0);
    assert_eq!((k.as_str(), v.as_str()), ("a", "3"));
}

#[test]
fn table_keyed_by_locale() {
    let mut t: Table<Locales, u8> = Table::new();
    t.insert(Locales::tr, 1);
    t.insert(Locales::en_US, 2);
    t.insert(Locales::tr, 3);
    assert_eq!(t.len(), 2);
    assert_eq!(t.get(&Locales::tr), Some(&3));
    assert_eq!(t.get(&Locales::en_US), Some(&2));
}
