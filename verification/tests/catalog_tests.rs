use ptfl_reader::catalog::{Catalog, CatalogError, sort_samples};

fn key(l: &str, n: u32) -> (String, u32) {
    (String::from(l), n)
}

#[test]
fn insert_get_contains_order() {
    let mut c = Catalog::new();
    assert_eq!(c.len(), 0);
    c.insert(key("a", 0), vec![(0, 1_000_000)]);
    c.insert(key("b", 0), vec![(0, 2_000_000), (1, 3)]);
    assert_eq!(c.len(), 2);
    assert!(c.contains(&key("a", 0)));
    assert!(!c.contains(&key("a", 1)));
    assert_eq!(c.get(&key("b", 0)).unwrap().len(), 2);
    assert!(c.get(&key("c", 0)).is_none());
    // insertion order is preserved
    let (k0, _) = c.at(0);
    let (k1, _) = c.at(1);
    assert_eq!(k0.0, "a");
    assert_eq!(k1.0, "b");
}

#[test]
fn sort_orders_by_angle_then_range() {
    let v = vec![
        (3_000_000i64, 1_000_000i64),
        (1_000_000, 5_000_000),
        (3_000_000, -2_000_000),
        (1_000_000, 5_000_000),
        (-4_000_000, 0),
    ];
    let s = sort_samples(&v);
    assert_eq!(
        s,
        vec![
            (-4_000_000, 0),
            (1_000_000, 5_000_000),
            (1_000_000, 5_000_000),
            (3_000_000, -2_000_000),
            (3_000_000, 1_000_000),
        ]
    );
}

#[test]
fn combine_concatenates_and_sorts() {
    let mut c = Catalog::new();
    c.insert(key("a", 0), vec![(2_000_000, 1), (0, 2)]);
    c.insert(key("b", 0), vec![(1_000_000, 3)]);
    let r = c.combine(key("m", 0), &vec![key("a", 0), key("b", 0)]);
    assert!(r.is_ok());
    let merged = c.get(&key("m", 0)).unwrap();
    assert_eq!(merged, &vec![(0, 2), (1_000_000, 3), (2_000_000, 1)]);
}

#[test]
fn combine_is_order_insensitive() {
    let mut c1 = Catalog::new();
    c1.insert(key("a", 0), vec![(5, 5), (1, 1)]);
    c1.insert(key("b", 0), vec![(3, 3), (1, 0)]);
    c1.combine(key("m", 0), &vec![key("a", 0), key("b", 0)]).unwrap();

    let mut c2 = Catalog::new();
    c2.insert(key("a", 0), vec![(5, 5), (1, 1)]);
    c2.insert(key("b", 0), vec![(3, 3), (1, 0)]);
    c2.combine(key("m", 0), &vec![key("b", 0), key("a", 0)]).unwrap();

    assert_eq!(c1.get(&key("m", 0)).unwrap(), c2.get(&key("m", 0)).unwrap());
    assert_eq!(
        c1.get(&key("m", 0)).unwrap(),
        &vec![(1, 0), (1, 1), (3, 3), (5, 5)]
    );
}

#[test]
fn combine_duplicate_target_fails_without_change() {
    let mut c = Catalog::new();
    c.insert(key("a", 0), vec![(0, 1)]);
    c.insert(key("b", 0), vec![(0, 2)]);
    let r = c.combine(key("a", 0), &vec![key("b", 0)]);
    assert!(matches!(r, Err(CatalogError::DuplicateKey(l, 0)) if l == "a"));
    // nothing was touched
    assert_eq!(c.len(), 2);
    assert_eq!(c.get(&key("a", 0)).unwrap(), &vec![(0, 1)]);
    assert_eq!(c.get(&key("b", 0)).unwrap(), &vec![(0, 2)]);
}

#[test]
fn combine_missing_source_names_first_missing_key() {
    let mut c = Catalog::new();
    c.insert(key("a", 0), vec![(0, 1)]);
    let r = c.combine(key("m", 0), &vec![key("a", 0), key("x", 7), key("y", 8)]);
    assert!(matches!(r, Err(CatalogError::MissingSource(l, 7)) if l == "x"));
    assert_eq!(c.len(), 1);
    assert!(!c.contains(&key("m", 0)));
}

#[test]
fn combine_of_nothing_is_empty_entry() {
    let mut c = Catalog::new();
    let r = c.combine(key("m", 0), &vec![]);
    assert!(r.is_ok());
    assert_eq!(c.get(&key("m", 0)).unwrap().len(), 0);
}

#[test]
fn iterate_returns_entries_in_order() {
    let mut c = Catalog::new();
    c.insert(key("a", 0), vec![(0, 1)]);
    c.insert(key("b", 2), vec![(0, 2), (1, 3)]);
    let all = c.iterate();
    assert_eq!(all.len(), 2);
    assert_eq!(all[0].0, key("a", 0));
    assert_eq!(all[0].1, vec![(0, 1)]);
    assert_eq!(all[1].0, key("b", 2));
    assert_eq!(all[1].1, vec![(0, 2), (1, 3)]);
}
