use vstd::prelude::*;

verus! {

/// How a replica takes part: on its own, as the client of a server, or as
/// the server.
#[derive(Debug, PartialEq, Eq)]
pub enum Mode {
    Server { server_addr: String },
    Remote { remote_url: String },
    Local,
}

impl Mode {
    pub fn server(server_addr: String) -> (mode: Self)
        ensures
            mode == (Mode::Server { server_addr }),
    {
        Mode::Server { server_addr }
    }

    pub fn remote(remote_url: String) -> (mode: Self)
        ensures
            mode == (Mode::Remote { remote_url }),
    {
        Mode::Remote { remote_url }
    }

    pub fn local() -> (mode: Self)
        ensures
            mode == Mode::Local,
    {
        Mode::Local
    }

    /// The address of the server that a client replica follows.
    pub fn remote_url(&self) -> (url: Option<&str>)
        ensures
            url is Some <==> self is Remote,
            url matches Some(u) ==> u@ == self->remote_url@,
    {
        match self {
            Mode::Remote { remote_url } => Some(remote_url.as_str()),
            _ => None,
        }
    }

    /// The address that a server replica listens on.
    pub fn server_addr(&self) -> (addr: Option<&str>)
        ensures
            addr is Some <==> self is Server,
            addr matches Some(a) ==> a@ == self->server_addr@,
    {
        match self {
            Mode::Server { server_addr } => Some(server_addr.as_str()),
            _ => None,
        }
    }
}

/// Where a replica keeps its files, and who writes with it.
pub struct Context {
    pub db_root_path: String,
    pub uid: String,
}

impl Context {
    pub fn init(db_root_path: String, uid: String) -> (ctx: Self)
        ensures
            ctx.db_root_path == db_root_path,
            ctx.uid == uid,
    {
        Context { db_root_path, uid }
    }
}

impl Clone for Context {
    fn clone(&self) -> (copy: Self)
        ensures
            copy == *self,
    {
        Context { db_root_path: self.db_root_path.clone(), uid: self.uid.clone() }
    }
}

/// The one record that says how the replica takes part.
#[derive(Debug, PartialEq, Eq)]
pub struct RepoDetails {
    pub mode: Mode,
}

} // verus!
