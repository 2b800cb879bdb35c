use vstd::prelude::*;
use std::path::PathBuf;

verus! {

#[verifier::external_type_specification]
#[verifier::external_body]
pub struct ExPathBuf(PathBuf);

/// `PathBuf::clone`, called by the derived `Clone` of `AppConfig`. Nothing is
/// claimed of the copy.
pub assume_specification[ <PathBuf as Clone>::clone ](path: &PathBuf) -> PathBuf;

/// The backend's process handle and base URL, shared between its supervisor
/// and the commands that call it.
///
/// `base_url` is `None` until the startup handshake has been read, and is
/// cleared whenever the process ends, so that nobody sees the URL of a
/// process that is gone. `child` is kept so that the process can be killed
/// when the app exits.
#[derive(Debug)]
pub struct SidecarHandle<C> {
    pub base_url: Option<String>,
    pub child: Option<C>,
}

impl<C> SidecarHandle<C> {
    /// A handle with no process and no URL.
    pub fn new() -> (h: Self)
        ensures
            h.base_url is None,
            h.child is None,
    {
        SidecarHandle { base_url: None, child: None }
    }

    /// Records the process of the run that has just started.
    pub fn set_child(&mut self, child: C)
        ensures
            final(self).child == Some(child),
            final(self).base_url == old(self).base_url,
    {
        self.child = Some(child);
    }

    /// Records the base URL that the handshake announced.
    pub fn set_base_url(&mut self, base_url: String)
        ensures
            final(self).base_url == Some(base_url),
            final(self).child == old(self).child,
    {
        self.base_url = Some(base_url);
    }

    /// Forgets the URL and the process of a run that has ended.
    pub fn clear(&mut self)
        ensures
            final(self).base_url is None,
            final(self).child is None,
    {
        self.base_url = None;
        self.child = None;
    }

    /// Takes the process out of the handle, to be killed.
    pub fn take_child(&mut self) -> (child: Option<C>)
        ensures
            child == old(self).child,
            final(self).child is None,
            final(self).base_url == old(self).base_url,
    {
        self.child.take()
    }
}

/// App-wide configuration resolved once at startup.
#[derive(Debug, Clone)]
pub struct AppConfig {
    /// The per-user data directory of the app.
    pub data_dir: PathBuf,
    /// The SQLite database file inside `data_dir`.
    pub db_path: PathBuf,
}

} // verus!
