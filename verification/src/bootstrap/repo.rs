//! Findings from git history and the directory structure, plus the questions
//! bootstrap cannot answer. Running git and listing directories happen
//! outside the library.

use vstd::prelude::*;

use super::report::{finding_view, findings_view, BootstrapReport, Certainty, Finding, FindingView};
use crate::git::GitOutput;
use crate::order::{char_codes, lemma_multiset_map, seq_lt, sort_by_key, SortKey};
use crate::text::{
    chars_of, join, join_strings, lines, lines_vec, starts_with, string_of, sv, trim, trim_vec,
    vec_starts_with,
};

verus! {

/// At most this many commit subjects are reported.
pub const MAX_COMMITS: usize = 10;

/// Directories that never describe the project's structure.
pub open spec fn ignored_dir(name: Seq<char>) -> bool {
    name == "target"@ || name == "node_modules"@ || name == "dist"@ || name == "build"@
        || name == "vendor"@ || name == "__pycache__"@
}

fn is_ignored_dir(name: &str) -> (r: bool)
    ensures
        r == ignored_dir(name@),
{
    let v = chars_of(name);
    crate::text::str_eq("target", &v) || crate::text::str_eq("node_modules", &v)
        || crate::text::str_eq("dist", &v) || crate::text::str_eq("build", &v)
        || crate::text::str_eq("vendor", &v) || crate::text::str_eq("__pycache__", &v)
}

/// The non-blank trimmed lines, at most `n` of them.
pub open spec fn first_subjects(ls: Seq<Seq<char>>, n: int) -> Seq<Seq<char>>
    decreases ls.len(),
{
    if ls.len() == 0 || n <= 0 {
        Seq::empty()
    } else if trim(ls[0]).len() == 0 {
        first_subjects(ls.drop_first(), n)
    } else {
        seq![trim(ls[0])] + first_subjects(ls.drop_first(), n - 1)
    }
}

/// The finding for the output of `git log --pretty=format:%s`: the latest
/// subjects, or nothing when git failed or there are no commits.
pub open spec fn git_log_view(success: bool, stdout: Seq<char>) -> Seq<FindingView> {
    let subjects = first_subjects(lines(stdout), MAX_COMMITS as int);
    if !success || subjects.len() == 0 {
        Seq::empty()
    } else {
        seq![(Certainty::Confirmed, "Recent commits"@, join(subjects, "; "@), Some("git log"@))]
    }
}

proof fn lemma_first_subjects_len(ls: Seq<Seq<char>>, n: int)
    ensures
        first_subjects(ls, n).len() <= if n < 0 { 0 } else { n },
    decreases ls.len(),
{
    if ls.len() > 0 && n > 0 {
        lemma_first_subjects_len(ls.drop_first(), if trim(ls[0]).len() == 0 { n } else { n - 1 });
    }
}

/// `first_subjects` of `ls[i..]` given what came before.
proof fn lemma_first_subjects_step(ls: Seq<Seq<char>>, i: int, n: int)
    requires
        0 <= i < ls.len(),
        n > 0,
    ensures
        first_subjects(ls.subrange(i, ls.len() as int), n) == if trim(ls[i]).len() == 0 {
            first_subjects(ls.subrange(i + 1, ls.len() as int), n)
        } else {
            seq![trim(ls[i])] + first_subjects(ls.subrange(i + 1, ls.len() as int), n - 1)
        },
{
    assert(ls.subrange(i, ls.len() as int).drop_first() =~= ls.subrange(i + 1, ls.len() as int));
    assert(ls.subrange(i, ls.len() as int)[0] == ls[i]);
}

/// Subjects of the latest commits from `git log` output.
pub fn git_log_findings(out: &GitOutput) -> (r: Vec<Finding>)
    ensures
        findings_view(r@) == git_log_view(out.success, out.stdout@),
{
    let mut r: Vec<Finding> = Vec::new();
    if !out.success {
        assert(findings_view(r@) =~= Seq::<FindingView>::empty());
        return r;
    }
    let text = chars_of(out.stdout.as_str());
    let ls = lines_vec(&text);
    let ghost lv = lines(out.stdout@);
    assert(crate::text::vv(ls@) =~= lv);
    let mut subjects: Vec<String> = Vec::new();
    let mut i: usize = 0;
    proof {
        lemma_first_subjects_len(lv, MAX_COMMITS as int);
        assert(lv.subrange(0, lv.len() as int) =~= lv);
    }
    while i < ls.len() && subjects.len() < MAX_COMMITS
        invariant
            i <= ls.len(),
            ls@.len() == lv.len(),
            forall|j: int| 0 <= j < ls@.len() ==> #[trigger] ls@[j]@ == lv[j],
            subjects@.len() <= MAX_COMMITS,
            sv(subjects@) + first_subjects(lv.subrange(i as int, lv.len() as int), MAX_COMMITS - subjects@.len())
                == first_subjects(lv, MAX_COMMITS as int),
        decreases ls.len() - i,
    {
        proof {
            lemma_first_subjects_step(lv, i as int, MAX_COMMITS - subjects@.len());
        }
        let t = trim_vec(&ls[i]);
        if t.len() > 0 {
            let s = string_of(&t);
            let ghost before = subjects@;
            subjects.push(s);
            assert(sv(subjects@) =~= sv(before).push(s@));
            assert(sv(subjects@) + first_subjects(lv.subrange(i + 1, lv.len() as int), MAX_COMMITS - subjects@.len())
                =~= sv(before) + (seq![trim(lv[i as int])] + first_subjects(lv.subrange(i + 1, lv.len() as int), MAX_COMMITS - before.len() - 1)));
        }
        i = i + 1;
    }
    proof {
        if i == ls.len() {
            assert(lv.subrange(i as int, lv.len() as int) =~= Seq::<Seq<char>>::empty());
        }
        assert(first_subjects(lv.subrange(i as int, lv.len() as int), MAX_COMMITS - subjects@.len()) =~= Seq::<Seq<char>>::empty())
            by {
            if i < ls.len() {
                assert(subjects@.len() == MAX_COMMITS);
            }
        }
        assert(sv(subjects@) + Seq::<Seq<char>>::empty() =~= sv(subjects@));
    }
    if subjects.len() == 0 {
        assert(findings_view(r@) =~= Seq::<FindingView>::empty());
        return r;
    }
    let joined = join_strings(&subjects, "; ");
    let f = Finding::confirmed("Recent commits", joined.as_str(), Some("git log"));
    r.push(f);
    assert(findings_view(r@) =~= seq![finding_view(f)]);
    r
}

/// Visible names (not starting with `.`) that are not ignored.
pub open spec fn visible_names(names: Seq<Seq<char>>) -> Seq<Seq<char>> {
    names.filter(|n: Seq<char>| !starts_with(n, "."@) && !ignored_dir(n))
}

/// No name comes after one that sorts above it.
pub open spec fn names_sorted(s: Seq<Seq<char>>) -> bool {
    forall|i: int, j: int| 0 <= i < j < s.len() ==> !seq_lt(char_codes(#[trigger] s[j]), char_codes(#[trigger] s[i]))
}

/// The subdirectory names worth reporting, sorted.
pub fn visible_dirs(names: Vec<String>) -> (r: Vec<String>)
    ensures
        sv(r@).to_multiset() == visible_names(sv(names@)).to_multiset(),
        names_sorted(sv(r@)),
{
    let ghost nv = sv(names@);
    let mut kept: Vec<String> = Vec::new();
    let mut i: usize = 0;
    assert(nv.take(0) =~= Seq::<Seq<char>>::empty());
    while i < names.len()
        invariant
            i <= names.len(),
            nv == sv(names@),
            sv(kept@) == visible_names(nv.take(i as int)),
        decreases names.len() - i,
    {
        assert(nv.take(i + 1) =~= nv.take(i as int).push(names@[i as int]@));
        proof {
            nv.take(i as int).lemma_filter_push(names@[i as int]@, |n: Seq<char>| !starts_with(n, "."@) && !ignored_dir(n));
        }
        let hidden = vec_starts_with(&chars_of(names[i].as_str()), &chars_of("."));
        if !hidden && !is_ignored_dir(names[i].as_str()) {
            let c = names[i].clone();
            let ghost before = kept@;
            kept.push(c);
            assert(sv(kept@) =~= sv(before).push(c@));
        }
        i = i + 1;
    }
    assert(nv.take(names.len() as int) =~= nv);
    let sorted = sort_by_key(kept);
    proof {
        lemma_multiset_map(sorted@, kept@, |s: String| s@);
        assert forall|a: int, b: int| 0 <= a < b < sv(sorted@).len() implies !seq_lt(
            char_codes(#[trigger] sv(sorted@)[b]),
            char_codes(#[trigger] sv(sorted@)[a]),
        ) by {
            assert(sorted@[b].sort_key() == char_codes(sv(sorted@)[b]));
            assert(sorted@[a].sort_key() == char_codes(sv(sorted@)[a]));
        }
    }
    sorted
}

/// `dir/`, or `dir/ (a, b)` with its subdirectories.
pub open spec fn tree_entry(dir: Seq<char>, children: Seq<Seq<char>>) -> Seq<char> {
    if children.len() == 0 {
        dir + "/"@
    } else {
        dir + "/ ("@ + join(children, ", "@) + ")"@
    }
}

pub open spec fn tree_entries(dirs: Seq<(String, Vec<String>)>) -> Seq<Seq<char>> {
    dirs.map_values(|d: (String, Vec<String>)| tree_entry(d.0@, sv(d.1@)))
}

/// The finding for the top-level directories and their subdirectories,
/// e.g. `crates/ (a, b), src/`; nothing without directories.
pub open spec fn tree_view(dirs: Seq<(String, Vec<String>)>) -> Seq<FindingView> {
    if dirs.len() == 0 {
        Seq::empty()
    } else {
        seq![(Certainty::Confirmed, "Top-level structure"@, join(tree_entries(dirs), ", "@), Some("repository structure"@))]
    }
}

/// The structure finding for the listed directories (each with its own
/// subdirectories, as `visible_dirs` gives them).
pub fn tree_findings(dirs: &Vec<(String, Vec<String>)>) -> (r: Vec<Finding>)
    ensures
        findings_view(r@) == tree_view(dirs@),
{
    let mut r: Vec<Finding> = Vec::new();
    if dirs.len() == 0 {
        assert(findings_view(r@) =~= Seq::<FindingView>::empty());
        return r;
    }
    let mut entries: Vec<String> = Vec::new();
    let mut i: usize = 0;
    while i < dirs.len()
        invariant
            i <= dirs.len(),
            sv(entries@) == tree_entries(dirs@).take(i as int),
        decreases dirs.len() - i,
    {
        let mut e = String::new();
        e.append(dirs[i].0.as_str());
        if dirs[i].1.len() == 0 {
            e.append("/");
        } else {
            e.append("/ (");
            let children = join_strings(&dirs[i].1, ", ");
            e.append(children.as_str());
            e.append(")");
        }
        let ghost before = entries@;
        entries.push(e);
        assert(sv(entries@) =~= sv(before).push(e@));
        assert(tree_entries(dirs@).take(i + 1) =~= tree_entries(dirs@).take(i as int).push(e@));
        i = i + 1;
    }
    assert(tree_entries(dirs@).take(dirs.len() as int) =~= tree_entries(dirs@));
    let joined = join_strings(&entries, ", ");
    let f = Finding::confirmed("Top-level structure", joined.as_str(), Some("repository structure"));
    r.push(f);
    assert(findings_view(r@) =~= seq![finding_view(f)]);
    r
}

/// What rules cannot tell; always the same four questions.
pub open spec fn unknown_questions_view() -> Seq<FindingView> {
    seq![
        (Certainty::Unknown, "Goal"@, "The project goal has not been confirmed."@, None),
        (Certainty::Unknown, "Non Goals"@, "Non goals have not been defined."@, None),
        (Certainty::Unknown, "Architecture"@, "Key architectural constraints have not been confirmed."@, None),
        (
            Certainty::Unknown,
            "Roadmap"@,
            "Whether other backends, platforms or integrations are planned is unknown."@,
            None,
        ),
    ]
}

pub fn unknown_questions() -> (r: Vec<Finding>)
    ensures
        findings_view(r@) == unknown_questions_view(),
{
    let mut r: Vec<Finding> = Vec::new();
    r.push(Finding::unknown("Goal", "The project goal has not been confirmed."));
    r.push(Finding::unknown("Non Goals", "Non goals have not been defined."));
    r.push(Finding::unknown("Architecture", "Key architectural constraints have not been confirmed."));
    r.push(Finding::unknown(
        "Roadmap",
        "Whether other backends, platforms or integrations are planned is unknown.",
    ));
    assert(findings_view(r@) =~= unknown_questions_view());
    r
}

/// The bootstrap report, in its fixed order: the manifests' findings, the
/// documents', the directory structure's and the history's, then the open
/// questions.
pub fn compose_report(
    manifests: Vec<Finding>,
    docs: Vec<Finding>,
    tree: Vec<Finding>,
    log: Vec<Finding>,
) -> (r: BootstrapReport)
    ensures
        findings_view(r.findings@) == findings_view(manifests@ + docs@ + tree@ + log@)
            + unknown_questions_view(),
{
    let mut report = BootstrapReport { findings: Vec::new() };
    report.extend(manifests);
    report.extend(docs);
    report.extend(tree);
    report.extend(log);
    let q = unknown_questions();
    let ghost known = report.findings@;
    report.extend(q);
    assert(Seq::<Finding>::empty() + manifests@ + docs@ + tree@ + log@ =~= manifests@ + docs@ + tree@ + log@);
    assert(findings_view(known + q@) =~= findings_view(known) + findings_view(q@));
    report
}

} // verus!
