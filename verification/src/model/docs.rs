//! `10-project.md` and `20-architecture.md`.
//!
//! Both are free-form `MdDoc`s; ctx-sync only creates their initial content.

use vstd::prelude::*;

verus! {

pub const PROJECT_FILE: &'static str = "10-project.md";

pub const ARCHITECTURE_FILE: &'static str = "20-architecture.md";

/// The project document created by `init`.
pub fn initial_project_md(project_name: &str) -> (s: String)
    ensures
        s@ == "# Project\n\n## Goal\n\nTBD: describe the goal of "@ + project_name@
            + " in 1-3 lines.\n\n## Non Goals\n\n- TBD\n\n## Tech Stack\n\n- TBD\n"@,
{
    let mut s = String::new();
    s.append("# Project\n\n## Goal\n\nTBD: describe the goal of ");
    s.append(project_name);
    s.append(" in 1-3 lines.\n\n## Non Goals\n\n- TBD\n\n## Tech Stack\n\n- TBD\n");
    s
}

/// The architecture document created by `init`.
pub fn initial_architecture_md() -> (s: String)
    ensures
        s@ == "# Architecture\n\n## Components\n\nTBD\n\n## Rules\n\n- Each worker owns its own `40-worker-*.md` file. Do not edit other workers' files.\n- Decisions are append-only. Add a new decision with `Supersedes:` instead of editing an old one.\n- Shared files are synchronized with Git optimistic concurrency. Conflicts are never resolved automatically.\n"@,
{
    String::from_str(
        "# Architecture\n\n## Components\n\nTBD\n\n## Rules\n\n- Each worker owns its own `40-worker-*.md` file. Do not edit other workers' files.\n- Decisions are append-only. Add a new decision with `Supersedes:` instead of editing an old one.\n- Shared files are synchronized with Git optimistic concurrency. Conflicts are never resolved automatically.\n",
    )
}

} // verus!
