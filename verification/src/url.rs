//! The address of a remote repository and the expansion of its path.

use crate::file::opt_bytes;
use crate::path::{join, join_path, made_relative, make_relative};
use crate::text::to_vec;
use vstd::prelude::*;

verus! {

#[derive(PartialEq, Eq, Debug, Hash, Ord, PartialOrd, Clone, Copy)]
pub enum Protocol {
    File,
    Git,
    Ssh,
    Http,
    Https,
}

/// Whose home the path of an address starts from.
#[derive(PartialEq, Eq, Debug, Hash, Ord, PartialOrd, Clone)]
pub enum UserExpansion {
    Current,
    Name(String),
}

#[derive(PartialEq, Eq, Debug, Hash, Ord, PartialOrd, Clone)]
pub struct Url {
    pub protocol: Protocol,
    pub user: Option<String>,
    pub host: Option<String>,
    pub port: Option<u16>,
    pub path: Vec<u8>,
    pub expand_user: Option<UserExpansion>,
}

impl Default for Url {
    fn default() -> (url: Url)
        ensures
            url.protocol == Protocol::Ssh,
            url.user is None,
            url.host is None,
            url.port is None,
            url.path@.len() == 0,
            url.expand_user is None,
    {
        Url {
            protocol: Protocol::Ssh,
            user: None,
            host: None,
            port: None,
            path: Vec::new(),
            expand_user: None,
        }
    }
}

/// The path of an address in the file system. Without a user to expand it
/// is the path as it stands. With one it lies below the home of that user,
/// without the root that it may start with; there is none where the user
/// has no home.
pub open spec fn expanded(path: Seq<u8>, expands: bool, home: Option<Seq<u8>>) -> Option<Seq<u8>> {
    if expands {
        match home {
            Some(base) => Some(join_path(base, made_relative(path))),
            None => None,
        }
    } else {
        Some(path)
    }
}

impl Url {
    /// The path of the address, given the home that was found for the user
    /// that it expands, if it expands one.
    pub fn expand_path_from(&self, home: Option<Vec<u8>>) -> (r: Option<Vec<u8>>)
        ensures
            opt_bytes(r) == expanded(self.path@, self.expand_user is Some, opt_bytes(home)),
    {
        match &self.expand_user {
            Some(_) => match home {
                Some(base) => {
                    let relative = make_relative(self.path.as_slice());
                    Some(join(base.as_slice(), relative.as_slice()))
                },
                None => None,
            },
            None => Some(to_vec(self.path.as_slice())),
        }
    }

    /// The path of the address, with `home_for_user` asked for the home of
    /// the user that it expands. An address that expands no user asks nothing.
    pub fn expand_path_with<F: FnOnce(&UserExpansion) -> Option<Vec<u8>>>(
        &self,
        home_for_user: F,
    ) -> (r: Option<Vec<u8>>)
        requires
            self.expand_user matches Some(user) ==> call_requires(home_for_user, (&user,)),
        ensures
            match self.expand_user {
                Some(user) => exists|home: Option<Vec<u8>>|
                    call_ensures(home_for_user, (&user,), home) && opt_bytes(r) == expanded(
                        self.path@,
                        true,
                        opt_bytes(home),
                    ),
                None => opt_bytes(r) == Some(self.path@),
            },
    {
        match &self.expand_user {
            Some(user) => {
                let home = home_for_user(user);
                self.expand_path_from(home)
            },
            None => self.expand_path_from(None),
        }
    }
}

} // verus!
