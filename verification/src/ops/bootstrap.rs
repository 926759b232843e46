//! `bootstrap --apply`: put the collected candidates into `10-project.md`.
//!
//! Only the project document is touched: inferred findings never become
//! decisions. Reading, writing and committing happen outside the library.

use vstd::prelude::*;

use crate::bootstrap::report::{findings_view, groups_text, BootstrapReport};
use crate::error::Error;
use crate::model::md::{key_index, trim_blank_lines, upsert, DocView, MdDoc, TextPair};
use crate::text::split;

verus! {

pub const INITIAL_CONTEXT: &'static str = "Initial Context";

#[derive(Debug, Clone)]
pub struct BootstrapApplyOutcome {
    pub file_name: String,
    pub committed: Option<String>,
}

/// The project document to extend: the one read, or one titled `Project`.
pub open spec fn base_doc(doc: Option<MdDoc>) -> DocView {
    match doc {
        Some(d) => d@,
        None => ("Project"@, Seq::empty(), Seq::empty(), Seq::empty()),
    }
}

/// Adds an `## Initial Context` section with the report's body to the
/// project document. An existing section is never overwritten.
pub fn apply_initial_context(doc: Option<MdDoc>, project_file: &str, report: &BootstrapReport) -> (r: Result<MdDoc, Error>)
    ensures
        key_index(base_doc(doc).3, "Initial Context"@) is Some ==> (r matches Err(Error::General(m)) && m@
            == project_file@ + " already has an Initial Context section"@),
        key_index(base_doc(doc).3, "Initial Context"@) is None ==> (r matches Ok(d) && d@ == (
            base_doc(doc).0,
            base_doc(doc).1,
            base_doc(doc).2,
            upsert(
                base_doc(doc).3,
                "Initial Context"@,
                trim_blank_lines(split(groups_text(findings_view(report.findings@), "###"@), '\n')),
            ),
        )),
{
    let mut d = match doc {
        Some(d) => d,
        None => {
            let d = MdDoc { title: String::from_str("Project"), fields: Vec::new(), preamble: String::new(), sections: Vec::new() };
            assert(crate::model::md::pairs_view(d.fields@) =~= Seq::<TextPair>::empty());
            assert(crate::model::md::sections_view(d.sections@) =~= Seq::<TextPair>::empty());
            d
        },
    };
    if d.section(INITIAL_CONTEXT).is_some() {
        let mut m = String::new();
        m.append(project_file);
        m.append(" already has an Initial Context section");
        return Err(Error::General(m));
    }
    let body = report.render_section_body();
    d.set_section(INITIAL_CONTEXT, body.as_str());
    Ok(d)
}

} // verus!
