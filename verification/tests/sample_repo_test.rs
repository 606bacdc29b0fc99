use kroom_core::container::Container;
use kroom_core::test::user_repo::{UserMockRepo, UserPgRepo, UserRepo};

#[test]
fn sample_repositories_find_their_users() {
    let mut container = Container::new();
    container.register::<UserMockRepo, UserMockRepo>();
    container.register::<UserPgRepo, UserPgRepo>();
    let mock = container.get::<UserMockRepo>().unwrap().find_one("1".to_string());
    assert_eq!(mock.id, "mock-id");
    assert_eq!(mock.name, "mock");
    let pg = container.get::<UserPgRepo>().unwrap().find_one("1".to_string());
    assert_eq!(pg.id, "pg-id");
    assert_eq!(pg.name, "pg");
}
