use radiance::content::{Content, ContentHash};
use radiance::library::{manifest_names, Entry, Library, Status};

#[test]
fn content_insert_is_idempotent() {
    let mut c = Content::new();
    let h1 = c.insert("void main() {}".to_string()).unwrap();
    let h2 = c.insert("void main() {}".to_string()).unwrap();
    assert_eq!(h1, h2);
    assert_eq!(c.len(), 1);
    assert_eq!(c.get(&h1).unwrap(), "void main() {}");
}

#[test]
fn content_collision_is_detected() {
    let mut c = Content::new();
    let weak = ContentHash(7);
    assert_eq!(c.insert_hashed(weak, "one".to_string()), Ok(weak));
    let e = c.insert_hashed(weak, "two".to_string()).unwrap_err();
    assert_eq!(e.hash, weak);
    assert_eq!(c.get(&weak).unwrap(), "one");
    assert_eq!(c.len(), 1);
}

#[test]
fn content_hash_depends_on_text() {
    assert_eq!(Content::hash("abc"), Content::hash("abc"));
    assert_ne!(Content::hash("abc"), Content::hash("abd"));
}

#[test]
fn status_of_unrequested_name_is_invalid() {
    let lib = Library::new();
    assert!(matches!(lib.effect_source("never"), Status::Invalid));
}

#[test]
fn status_follows_load_outcome() {
    let mut lib = Library::new();
    lib.begin_load("a".to_string());
    lib.begin_load("b".to_string());
    assert!(matches!(lib.effect_source("a"), Status::Pending));
    lib.set_effect_source("a".to_string(), "text of a".to_string()).unwrap();
    match lib.effect_source("a") {
        Status::Loaded(t) => assert_eq!(t, "text of a"),
        _ => panic!("a should be loaded"),
    }
    assert!(matches!(lib.effect_source("b"), Status::Pending));
    lib.fail_load("b".to_string(), "Not Found".to_string());
    match lib.effect_source("b") {
        Status::Failed { error } => assert_eq!(error, "Not Found"),
        _ => panic!("b should have failed"),
    }
    match lib.effect_source("a") {
        Status::Loaded(t) => assert_eq!(t, "text of a"),
        _ => panic!("a should still be loaded"),
    }
}

#[test]
fn library_content_by_hash() {
    let mut lib = Library::new();
    let h = lib.set_effect_source("x".to_string(), "body".to_string()).unwrap();
    assert_eq!(lib.content(&h), Some("body".to_string()));
    assert_eq!(lib.content(&ContentHash(h.0.wrapping_add(1))), None);
}

#[test]
fn manifest_lists_one_name_per_line() {
    assert_eq!(manifest_names("a\nb\r\nc\n"), vec!["a", "b", "c"]);
    assert_eq!(manifest_names(""), Vec::<String>::new());
    assert_eq!(manifest_names("x"), vec!["x"]);
}

#[test]
fn items_list_requested_names() {
    let mut lib = Library::new();
    lib.begin_load("p".to_string());
    let h = lib.set_effect_source("q".to_string(), "text".to_string()).unwrap();
    let items = lib.items();
    assert_eq!(items.len(), 2);
    assert_eq!(items[0].0, "p");
    assert!(matches!(items[0].1, Status::Pending));
    assert_eq!(items[1].0, "q");
    assert!(matches!(items[1].1, Status::Loaded(Entry::Effect { source_hash }) if source_hash == h));
}
