use ksud::profile::{PolicySource, Profile, ProfileError, ProfileStore, DEFAULT_DOMAIN};

fn names(store: &ProfileStore) -> Vec<Vec<u8>> {
    store.list_templates()
}

#[test]
fn a_new_store_is_empty() {
    let store = ProfileStore::new();
    assert!(store.list_templates().is_empty());
    assert_eq!(store.get_template(b"any"), Err(ProfileError::NotFound));
    assert_eq!(store.get_sepolicy(b"com.example"), Err(ProfileError::NotFound));
    assert_eq!(store.get_domain(b"com.example"), Err(ProfileError::NotFound));
}

#[test]
fn templates_are_set_replaced_and_listed_in_order() {
    let mut store = ProfileStore::new();
    store.set_template(b"net", b"allow a b c d");
    store.set_template(b"adb", b"permissive shell");
    store.set_template(b"net", b"deny a b c d");
    assert_eq!(names(&store), vec![b"net".to_vec(), b"adb".to_vec()]);
    assert_eq!(store.get_template(b"net"), Ok(b"deny a b c d".to_vec()));
    assert_eq!(store.get_template(b"adb"), Ok(b"permissive shell".to_vec()));
    assert_eq!(store.find_template(b"adb"), Some(1));
    assert_eq!(store.find_template(b"ad"), None);
}

#[test]
fn deleting_a_template_that_is_not_there_fails() {
    let mut store = ProfileStore::new();
    store.set_template(b"net", b"x");
    assert_eq!(store.delete_template(b"nope"), Err(ProfileError::NotFound));
    assert_eq!(store.delete_template(b"net"), Ok(()));
    assert_eq!(store.delete_template(b"net"), Err(ProfileError::NotFound));
    assert!(names(&store).is_empty());
}

#[test]
fn a_package_gets_a_statement_of_its_own() {
    let mut store = ProfileStore::new();
    store.set_sepolicy(b"com.example", b"allow a b c d");
    assert_eq!(store.get_sepolicy(b"com.example"), Ok(b"allow a b c d".to_vec()));
    assert_eq!(store.get_domain(b"com.example"), Ok(DEFAULT_DOMAIN.as_bytes().to_vec()));
    store.profiles[0].domain = b"u:r:shell:s0".to_vec();
    store.set_sepolicy(b"com.example", b"deny a b c d");
    assert_eq!(store.profiles.len(), 1);
    assert_eq!(store.get_sepolicy(b"com.example"), Ok(b"deny a b c d".to_vec()));
    assert_eq!(store.get_domain(b"com.example"), Ok(b"u:r:shell:s0".to_vec()));
    assert_eq!(store.find_profile(b"com.example"), Some(0));
    assert_eq!(store.find_profile(b"com.other"), None);
}

#[test]
fn a_profile_falls_back_when_its_template_is_deleted() {
    let mut store = ProfileStore::new();
    store.set_template(b"net", b"allow a b c d");
    store.profiles.push(Profile {
        package: b"com.example".to_vec(),
        domain: b"u:r:net:s0".to_vec(),
        policy: PolicySource::Template { id: b"net".to_vec() },
    });
    store.set_sepolicy(b"com.other", b"permissive x");
    assert_eq!(store.get_sepolicy(b"com.example"), Ok(b"allow a b c d".to_vec()));
    assert_eq!(store.get_domain(b"com.example"), Ok(b"u:r:net:s0".to_vec()));
    assert_eq!(store.delete_template(b"net"), Ok(()));
    assert_eq!(store.get_sepolicy(b"com.example"), Ok(Vec::new()));
    assert_eq!(store.get_domain(b"com.example"), Ok(b"u:r:su:s0".to_vec()));
    assert_eq!(store.get_sepolicy(b"com.other"), Ok(b"permissive x".to_vec()));
    store.set_template(b"net", b"enforce y");
    assert_eq!(store.get_sepolicy(b"com.example"), Ok(b"enforce y".to_vec()));
    assert_eq!(store.get_domain(b"com.example"), Ok(b"u:r:net:s0".to_vec()));
}
