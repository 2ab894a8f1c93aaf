use hexendb::user_manager::UserManager;

fn text(s: &str) -> String {
    s.to_string()
}

const HASH_OF_STAPLER: &str = "$2b$04$EGdrhbKUv8Oc9vGiXX0HQOxSg445d458Muh7DAHskb6QbtCvdxcie";

#[test]
fn a_new_manager_knows_the_admin() {
    let users = UserManager::new();
    assert!(users.authenticate("admin", "admin123"));
    assert!(!users.authenticate("admin", "admin124"));
    assert!(!users.authenticate("Admin", "admin123"));
    assert!(!users.authenticate("", ""));
}

#[test]
fn a_manager_without_a_hash_has_no_user() {
    let users = UserManager::with_admin(None);
    assert!(!users.authenticate("admin", "admin123"));
}

#[test]
fn a_password_is_held_against_the_hash_that_is_kept() {
    let mut users = UserManager::with_admin(None);
    assert!(users.add_hashed(text("ann"), Some(text(HASH_OF_STAPLER))));
    assert!(users.authenticate("ann", "correctbatteryhorsestapler"));
    assert!(!users.authenticate("ann", "correctbatteryhorsestaplers"));
    assert!(!users.authenticate("ann", ""));
    assert!(!users.authenticate("bob", "correctbatteryhorsestapler"));
}

#[test]
fn a_hash_that_is_none_accepts_nothing() {
    let mut users = UserManager::with_admin(Some(text("hunter2")));
    assert!(!users.authenticate("admin", "hunter2"));
    assert!(users.add_hashed(text("ann"), Some(text(""))));
    assert!(!users.authenticate("ann", ""));
}

#[test]
fn a_name_is_taken_once() {
    let mut users = UserManager::with_admin(Some(text(HASH_OF_STAPLER)));
    assert!(!users.add_hashed(text("admin"), Some(text("other"))));
    assert!(!users.add_user(text("admin"), text("secret")));
    assert!(users.authenticate("admin", "correctbatteryhorsestapler"));
    assert!(!users.add_hashed(text("ann"), None));
    assert!(!users.authenticate("ann", ""));
    assert!(users.add_hashed(text("ann"), Some(text(HASH_OF_STAPLER))));
    assert!(!users.add_hashed(text("ann"), Some(text(HASH_OF_STAPLER))));
}

#[test]
fn a_user_that_was_added_is_accepted_with_the_password() {
    let mut users = UserManager::with_admin(None);
    assert!(users.add_user(text("ann"), text("s3cret é")));
    assert!(users.authenticate("ann", "s3cret é"));
    assert!(!users.authenticate("ann", "s3cret e"));
    assert!(!users.add_user(text("ann"), text("again")));
    assert!(users.authenticate("ann", "s3cret é"));
}
