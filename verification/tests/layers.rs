use simple_db::Layer;

fn name(text: &str) -> String {
    String::from(text)
}

#[test]
fn new_layer_holds_nothing() {
    let layer = Layer::new();
    assert_eq!(layer.get(&name("a")), None);
    assert_eq!(layer.get(&name("")), None);
}

#[test]
fn layer_insert_then_get() {
    let mut layer = Layer::new();
    layer.insert(name("a"), 1);
    layer.insert(name("b"), 2);
    assert_eq!(layer.get(&name("a")), Some(&1));
    assert_eq!(layer.get(&name("b")), Some(&2));
    assert_eq!(layer.get(&name("c")), None);
}

#[test]
fn layer_insert_replaces_the_value() {
    let mut layer = Layer::new();
    layer.insert(name("a"), 1);
    layer.insert(name("b"), 2);
    layer.insert(name("a"), 3);
    assert_eq!(layer.get(&name("a")), Some(&3));
    assert_eq!(layer.get(&name("b")), Some(&2));
    // The replaced entry is one entry still: removing it once removes it.
    layer.remove(&name("a"));
    assert_eq!(layer.get(&name("a")), None);
}

#[test]
fn layer_remove_takes_out_one_key() {
    let mut layer = Layer::new();
    layer.insert(name("a"), 1);
    layer.insert(name("b"), 2);
    layer.insert(name("c"), 3);
    layer.remove(&name("a"));
    assert_eq!(layer.get(&name("a")), None);
    assert_eq!(layer.get(&name("b")), Some(&2));
    assert_eq!(layer.get(&name("c")), Some(&3));
    layer.remove(&name("c"));
    assert_eq!(layer.get(&name("b")), Some(&2));
    assert_eq!(layer.get(&name("c")), None);
    layer.remove(&name("b"));
    assert_eq!(layer.get(&name("b")), None);
}

#[test]
fn layer_remove_of_an_absent_key() {
    let mut layer = Layer::new();
    layer.remove(&name("a"));
    layer.insert(name("b"), 2);
    layer.remove(&name("a"));
    assert_eq!(layer.get(&name("a")), None);
    assert_eq!(layer.get(&name("b")), Some(&2));
}

#[test]
fn layer_clone_has_the_same_contents() {
    let mut layer = Layer::new();
    layer.insert(name("a"), 1);
    layer.insert(name("b"), 2);
    let copy = layer.clone();
    assert_eq!(copy.get(&name("a")), Some(&1));
    assert_eq!(copy.get(&name("b")), Some(&2));
    assert_eq!(copy.get(&name("c")), None);
}

#[test]
fn layer_clone_is_independent() {
    let mut layer = Layer::new();
    layer.insert(name("a"), 1);
    let mut copy = layer.clone();
    copy.insert(name("a"), 2);
    copy.insert(name("b"), 3);
    assert_eq!(layer.get(&name("a")), Some(&1));
    assert_eq!(layer.get(&name("b")), None);
    layer.remove(&name("a"));
    assert_eq!(copy.get(&name("a")), Some(&2));
    assert_eq!(copy.get(&name("b")), Some(&3));
}

#[test]
fn layer_holds_many_keys() {
    let mut layer = Layer::new();
    let mut i: u32 = 0;
    while i < 200 {
        layer.insert(format!("key{}", i), i * 2);
        i += 1;
    }
    i = 0;
    while i < 200 {
        assert_eq!(layer.get(&format!("key{}", i)), Some(&(i * 2)));
        i += 1;
    }
    i = 0;
    while i < 200 {
        layer.remove(&format!("key{}", i));
        i += 2;
    }
    i = 0;
    while i < 200 {
        let expected = if i % 2 == 0 { None } else { Some(i * 2) };
        assert_eq!(layer.get(&format!("key{}", i)).copied(), expected);
        i += 1;
    }
}
