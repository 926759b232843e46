//! Clone URL of the context Gist.

use vstd::prelude::*;

use crate::model::decision::opt_view;
use crate::state::Protocol;

verus! {

/// Environment variable that replaces the Gist URL (used by tests to point
/// at a local bare repository). It is read outside the library.
pub const REMOTE_URL_OVERRIDE_ENV: &'static str = "CTX_SYNC_REMOTE_URL_OVERRIDE";

#[derive(Debug, Clone, PartialEq, Eq)]
pub struct RemoteSpec {
    pub gist_id: String,
    pub protocol: Protocol,
    /// When set, used as the URL as-is.
    pub url_override: Option<String>,
}

/// The clone URL: the override when there is one, else the Gist's URL for
/// the protocol.
pub open spec fn remote_url(gist_id: Seq<char>, protocol: Protocol, url_override: Option<Seq<char>>) -> Seq<char> {
    match url_override {
        Some(u) => u,
        None => match protocol {
            Protocol::Https => "https://gist.github.com/"@ + gist_id + ".git"@,
            Protocol::Ssh => "git@gist.github.com:"@ + gist_id + ".git"@,
        },
    }
}

impl RemoteSpec {
    pub fn new(gist_id: &str, protocol: Protocol) -> (r: RemoteSpec)
        ensures
            r.gist_id@ == gist_id@,
            r.protocol == protocol,
            r.url_override is None,
    {
        RemoteSpec { gist_id: String::from_str(gist_id), protocol, url_override: None }
    }

    pub fn with_url_override(self, url: Option<String>) -> (r: RemoteSpec)
        ensures
            r.gist_id == self.gist_id,
            r.protocol == self.protocol,
            r.url_override == url,
    {
        RemoteSpec { url_override: url, ..self }
    }

    pub fn url(&self) -> (r: String)
        ensures
            r@ == remote_url(self.gist_id@, self.protocol, opt_view(self.url_override)),
    {
        match &self.url_override {
            Some(url) => url.clone(),
            None => {
                let mut s = String::new();
                match self.protocol {
                    Protocol::Https => {
                        s.append("https://gist.github.com/");
                    },
                    Protocol::Ssh => {
                        s.append("git@gist.github.com:");
                    },
                }
                s.append(self.gist_id.as_str());
                s.append(".git");
                s
            },
        }
    }
}

} // verus!
