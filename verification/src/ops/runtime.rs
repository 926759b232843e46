//! Execution environment of a command.
//!
//! Environment variables are read outside the library and handed over here.

use vstd::prelude::*;

use crate::model::decision::opt_view;
use crate::state::{ProjectState, Protocol, StateRoot};
use crate::store::gist::GistStore;
use crate::store::remote::{remote_url, RemoteSpec};

verus! {

#[derive(Debug, Clone)]
pub struct Runtime {
    pub state_root: StateRoot,
    /// `CTX_SYNC_REMOTE_URL_OVERRIDE`: replaces every Gist URL (tests).
    pub remote_url_override: Option<String>,
    /// Extra environment for git child processes (tests).
    pub git_env: Vec<(String, String)>,
}

impl Runtime {
    /// The Gist's remote, with this runtime's URL override.
    pub fn remote_spec(&self, gist_id: &str, protocol: Protocol) -> (r: RemoteSpec)
        ensures
            r.gist_id@ == gist_id@,
            r.protocol == protocol,
            opt_view(r.url_override) == opt_view(self.remote_url_override),
            r.url_override == self.remote_url_override,
    {
        let url = match &self.remote_url_override {
            Some(u) => Some(u.clone()),
            None => None,
        };
        RemoteSpec::new(gist_id, protocol).with_url_override(url)
    }

    /// The store of a project's context repository.
    pub fn gist_store(&self, state: &ProjectState, gist_id: &str, protocol: Protocol) -> (s: GistStore)
        ensures
            s.repo_dir_view() == crate::state::paths::join_path(state.dir_view(), "context-repo"@),
            s.remote_view().gist_id@ == gist_id@,
            s.remote_view().protocol == protocol,
            s.remote_view().url_override == self.remote_url_override,
            s.lock_path_view() == crate::state::paths::join_path(state.dir_view(), "context-repo.lock"@),
            s.conflict_path_view() == crate::state::paths::join_path(state.dir_view(), "conflict.json"@),
            s.env_view() == self.git_env@.map_values(|p: (String, String)| (p.0@, p.1@)),
    {
        let ghost want = self.git_env@.map_values(|p: (String, String)| (p.0@, p.1@));
        let mut env: Vec<(String, String)> = Vec::new();
        let mut i: usize = 0;
        while i < self.git_env.len()
            invariant
                i <= self.git_env.len(),
                want == self.git_env@.map_values(|p: (String, String)| (p.0@, p.1@)),
                env@.map_values(|p: (String, String)| (p.0@, p.1@)) == want.take(i as int),
            decreases self.git_env.len() - i,
        {
            let pair = (self.git_env[i].0.clone(), self.git_env[i].1.clone());
            let ghost before = env@;
            env.push(pair);
            assert(env@.map_values(|p: (String, String)| (p.0@, p.1@)) =~= before.map_values(
                |p: (String, String)| (p.0@, p.1@),
            ).push((pair.0@, pair.1@)));
            assert(want.take(i + 1) =~= want.take(i as int).push(want[i as int]));
            i = i + 1;
        }
        assert(want.take(self.git_env.len() as int) =~= want);
        GistStore::new(state, self.remote_spec(gist_id, protocol)).with_git_env(env)
    }
}

} // verus!
