use blarg::Collectable;
use blarg::Collection;
use blarg::GenericCapturable;
use blarg::Nargs;
use blarg::Optional;
use blarg::Scalar;
use blarg::Switch;
use std::collections::HashSet;

#[test]
fn field_vec() {
        let mut collection: Vec<u32> = Vec::default();
        let _ = collection.add(1);
        let _ = collection.add(0);
        assert_eq!(collection, vec![1, 0]);
}

#[test]
fn field_hash_set() {
        let mut collection: HashSet<u32> = HashSet::default();
        let _ = collection.add(1);
        let _ = collection.add(0);
        let _ = collection.add(1);
        assert_eq!(collection, HashSet::from([1, 0]));
}

#[test]
fn field_value_capture() {
        // Integer
        let mut variable: u32 = u32::default();
        let mut value = Scalar::new(&mut variable);
        value.capture("5").unwrap();
        assert_eq!(variable, 5);

        // Boolean
        let mut variable: bool = false;
        let mut value = Scalar::new(&mut variable);
        value.capture("true").unwrap();
        assert!(variable);
}

#[test]
fn field_optional_capture() {
        // Option<u32>
        let mut variable: Option<u32> = None;
        let mut optional = Optional::new(&mut variable);
        optional.capture("1").unwrap();
        assert_eq!(variable, Some(1));
}

#[test]
fn field_collection_capture() {
        // Vec<u32>
        let mut variable: Vec<u32> = Vec::default();
        let mut collection = Collection::new(&mut variable, Nargs::Any);
        collection.capture("1").unwrap();
        collection.capture("0").unwrap();
        assert_eq!(variable, vec![1, 0]);

        // HashSet<u32>
        let mut variable: HashSet<u32> = HashSet::default();
        let mut collection = Collection::new(&mut variable, Nargs::Any);
        collection.capture("1").unwrap();
        collection.capture("0").unwrap();
        collection.capture("0").unwrap();
        assert_eq!(variable, HashSet::from([0, 1]));
}

#[test]
fn field_value_overwritten() {
        let mut variable: u32 = u32::default();
        let mut value = Scalar::new(&mut variable);
        value.capture("5").unwrap();
        variable = 2;
        assert_eq!(variable, 2);
}

#[test]
fn field_value_matched() {
        let mut variable: u32 = u32::default();
        let mut value = Scalar::new(&mut variable);
        value.matched();
        assert_eq!(variable, 0);
}

#[test]
fn field_switch_matched() {
        let mut variable: u32 = u32::default();
        let mut switch = Switch::new(&mut variable, 2);
        switch.matched();
        assert_eq!(variable, 2);
}

#[test]
fn field_optional_matched() {
        let mut variable: Option<u32> = None;
        let mut optional = Optional::new(&mut variable);
        optional.matched();
        assert_eq!(variable, None);
}

#[test]
fn field_collection_matched() {
        let mut variable: Vec<u32> = Vec::default();
        let mut collection = Collection::new(&mut variable, Nargs::Any);
        collection.matched();
        assert_eq!(variable, vec![]);
}

#[test]
fn field_test_nargs() {
        let mut variable: u32 = u32::default();
        let value = Scalar::new(&mut variable);
        assert_eq!(value.nargs(), Nargs::Precisely(1));

        let mut variable: u32 = u32::default();
        let switch = Switch::new(&mut variable, 2);
        assert_eq!(switch.nargs(), Nargs::Precisely(0));

        let mut variable: Option<u32> = None;
        let optional = Optional::new(&mut variable);
        assert_eq!(optional.nargs(), Nargs::Precisely(1));

        let mut variable: Vec<u32> = Vec::default();
        let collection = Collection::new(&mut variable, Nargs::Any);
        assert_eq!(collection.nargs(), Nargs::Any);

        let mut variable: Vec<u32> = Vec::default();
        let collection = Collection::new(&mut variable, Nargs::AtLeastOne);
        assert_eq!(collection.nargs(), Nargs::AtLeastOne);
}


#[test]
fn collection_vec() {
        let mut collection: Vec<u32> = Vec::default();
        let _ = collection.add(1);
        let _ = collection.add(0);
        assert_eq!(collection, vec![1, 0]);
}

#[test]
fn collection_hash_set() {
        let mut collection: HashSet<u32> = HashSet::default();
        let _ = collection.add(1);
        let _ = collection.add(0);
        let _ = collection.add(1);
        assert_eq!(collection, HashSet::from([1, 0]));
}


#[test]
fn value_alias_capture() {
    let mut variable: u32 = 0;
    let mut value = blarg::field::Value::new(&mut variable);
    value.capture("12").unwrap();
    assert_eq!(variable, 12);
}
