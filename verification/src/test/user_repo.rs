//! Repositories of users, with two implementations to register in a container.
use vstd::prelude::*;
use vstd::string::*;
use std::sync::Arc;
use crate::container::{Container, ContainerError};
use crate::injectable::Injectable;
use crate::test::user::User;

verus! {

/// Finds users.
pub trait UserRepo {
    /// The user with the given id.
    fn find_one(&self, user_id: String) -> User;
}

/// A repository that answers every query with the same mock user.
pub struct UserMockRepo {}

impl UserRepo for UserMockRepo {
    fn find_one(&self, _user_id: String) -> (u: User)
        ensures
            u.id@ == "mock-id"@,
            u.name@ == "mock"@,
    {
        User { id: String::from_str("mock-id"), name: String::from_str("mock") }
    }
}

impl Injectable<UserMockRepo> for UserMockRepo {
    fn __kroom_construct(_container: &Container) -> Result<Arc<UserMockRepo>, ContainerError> {
        let user_mock_repo: UserMockRepo = UserMockRepo {};
        Ok(Arc::new(user_mock_repo))
    }

    fn __kroom_interface_name() -> String {
        String::from_str("kroom_core::test::user_repo::UserMockRepo")
    }

    fn __kroom_implementation_name() -> String {
        String::from_str("kroom_core::test::user_repo::UserMockRepo")
    }
}

} // verus!

verus! {

/// A repository that answers every query with the same user from its database.
pub struct UserPgRepo {}

impl UserRepo for UserPgRepo {
    fn find_one(&self, _user_id: String) -> (u: User)
        ensures
            u.id@ == "pg-id"@,
            u.name@ == "pg"@,
    {
        User { id: String::from_str("pg-id"), name: String::from_str("pg") }
    }
}

impl Injectable<UserPgRepo> for UserPgRepo {
    fn __kroom_construct(_container: &Container) -> Result<Arc<UserPgRepo>, ContainerError> {
        let user_pg_repo: UserPgRepo = UserPgRepo {};
        Ok(Arc::new(user_pg_repo))
    }

    fn __kroom_interface_name() -> String {
        String::from_str("kroom_core::test::user_repo::UserPgRepo")
    }

    fn __kroom_implementation_name() -> String {
        String::from_str("kroom_core::test::user_repo::UserPgRepo")
    }
}

} // verus!
