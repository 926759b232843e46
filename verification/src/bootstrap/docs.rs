//! Findings from documentation: README, agent instructions, docs/**.
//!
//! Reading files and walking `docs/` happen outside the library; what the
//! texts say is read here.

use vstd::prelude::*;

use super::report::{finding_view, findings_view, Certainty, Finding, FindingView};
use crate::order::{lemma_seq_lt_skip, seq_lt, sort_by_key, sorted_by_key, SortKey};
use crate::text::{
    ends_with, split, split_vec, vec_ends_with, vec_eq,
    chars_of, join, join_strings, lines, lines_vec, push_char, starts_with, string_of, strip_prefix,
    sv, trim, trim_start, trim_start_vec, trim_vec, vec_starts_with, vv,
};

verus! {

pub const MAX_SUMMARY_CHARS: usize = 200;

pub const MAX_HEADINGS: usize = 10;

/// Files of `docs/` looked at, after sorting.
pub const MAX_DOC_FILES: usize = 20;

/// Depth of `docs/` walked (the directory itself is depth 1).
pub const MAX_DOC_DEPTH: usize = 3;

/// At most 200 characters; a longer text is cut and ends with `…`.
pub open spec fn shortened(t: Seq<char>) -> Seq<char> {
    if t.len() <= MAX_SUMMARY_CHARS {
        t
    } else {
        t.take(MAX_SUMMARY_CHARS as int).push('…')
    }
}

pub fn shorten(text: &str) -> (r: String)
    ensures
        r@ == shortened(text@),
{
    let v = chars_of(text);
    if v.len() <= MAX_SUMMARY_CHARS {
        return String::from_str(text);
    }
    let mut out = String::new();
    let mut i: usize = 0;
    while i < MAX_SUMMARY_CHARS
        invariant
            i <= MAX_SUMMARY_CHARS < v@.len(),
            v@ == text@,
            out@ == text@.take(i as int),
        decreases MAX_SUMMARY_CHARS - i,
    {
        push_char(&mut out, v[i]);
        assert(out@ =~= text@.take(i + 1));
        i = i + 1;
    }
    push_char(&mut out, '…');
    out
}

/// Headings starting with `prefix` (`# `, `## `), trimmed, outside code
/// fences; a line starting (after indentation) with three backticks opens
/// or closes a fence.
pub open spec fn heading_scan(ls: Seq<Seq<char>>, prefix: Seq<char>, fence: bool) -> Seq<Seq<char>>
    decreases ls.len(),
{
    if ls.len() == 0 {
        Seq::empty()
    } else if starts_with(trim_start(ls[0]), "```"@) {
        heading_scan(ls.drop_first(), prefix, !fence)
    } else if fence {
        heading_scan(ls.drop_first(), prefix, fence)
    } else {
        match strip_prefix(ls[0], prefix) {
            Some(r) => seq![trim(r)] + heading_scan(ls.drop_first(), prefix, fence),
            None => heading_scan(ls.drop_first(), prefix, fence),
        }
    }
}

pub open spec fn headings_of(text: Seq<char>, prefix: Seq<char>) -> Seq<Seq<char>> {
    heading_scan(lines(text), prefix, false)
}

/// Every heading of `text` that starts with `prefix`, outside code fences.
pub fn headings(text: &str, prefix: &str) -> (r: Vec<String>)
    ensures
        sv(r@) == headings_of(text@, prefix@),
{
    let t = chars_of(text);
    let ls = lines_vec(&t);
    let ghost lv = lines(text@);
    assert(vv(ls@) =~= lv);
    let p = chars_of(prefix);
    let fence_mark = chars_of("```");
    let mut out: Vec<String> = Vec::new();
    let mut fence = false;
    let mut i: usize = 0;
    assert(lv.subrange(0, lv.len() as int) =~= lv);
    while i < ls.len()
        invariant
            i <= ls.len(),
            vv(ls@) == lv,
            p@ == prefix@,
            fence_mark@ == "```"@,
            sv(out@) + heading_scan(lv.subrange(i as int, lv.len() as int), prefix@, fence)
                == heading_scan(lv, prefix@, false),
        decreases ls.len() - i,
    {
        let ghost rest = lv.subrange(i as int, lv.len() as int);
        assert(rest.drop_first() =~= lv.subrange(i + 1, lv.len() as int));
        assert(rest[0] == ls@[i as int]@);
        let line = &ls[i];
        if vec_starts_with(&trim_start_vec(line), &fence_mark) {
            fence = !fence;
        } else if !fence {
            if vec_starts_with(line, &p) {
                let body = crate::text::slice_vec(line, p.len(), line.len());
                assert(body@ =~= line@.subrange(prefix@.len() as int, line@.len() as int));
                let h = string_of(&trim_vec(&body));
                let ghost before = out@;
                out.push(h);
                assert(sv(out@) =~= sv(before).push(h@));
                assert(sv(out@) + heading_scan(lv.subrange(i + 1, lv.len() as int), prefix@, fence) =~= sv(before)
                    + (seq![h@] + heading_scan(lv.subrange(i + 1, lv.len() as int), prefix@, fence)));
            }
        }
        i = i + 1;
    }
    assert(lv.subrange(ls.len() as int, lv.len() as int) =~= Seq::<Seq<char>>::empty());
    assert(sv(out@) + Seq::<Seq<char>>::empty() =~= sv(out@));
    out
}

/// The first line index of `ls` from `i` on that starts with `# `.
pub open spec fn title_index(ls: Seq<Seq<char>>, i: int) -> Option<int>
    decreases ls.len() - i,
{
    if i < 0 || i >= ls.len() {
        None
    } else if starts_with(ls[i], "# "@) {
        Some(i)
    } else {
        title_index(ls, i + 1)
    }
}

/// The trimmed lines from `i` on, without the blank ones at the start.
pub open spec fn skip_blank(ls: Seq<Seq<char>>, i: int) -> int
    decreases ls.len() - i,
{
    if i < 0 || i >= ls.len() {
        i
    } else if trim(ls[i]).len() == 0 {
        skip_blank(ls, i + 1)
    } else {
        i
    }
}

/// The trimmed lines from `i` on up to a blank line or a `#` line.
pub open spec fn paragraph(ls: Seq<Seq<char>>, i: int) -> Seq<Seq<char>>
    decreases ls.len() - i,
{
    if i < 0 || i >= ls.len() {
        Seq::empty()
    } else if trim(ls[i]).len() == 0 || trim(ls[i])[0] == '#' {
        Seq::empty()
    } else {
        seq![trim(ls[i])] + paragraph(ls, i + 1)
    }
}

/// The README's title and the first paragraph after it, shortened.
pub open spec fn readme_view(text: Seq<char>) -> Seq<FindingView> {
    let ls = lines(text);
    match title_index(ls, 0) {
        None => Seq::empty(),
        Some(ti) => {
            let title = (Certainty::Confirmed, "Title"@, trim(ls[ti].skip(2)), Some("README.md"@));
            let para = paragraph(ls, skip_blank(ls, ti + 1));
            if para.len() == 0 {
                seq![title]
            } else {
                seq![title, (Certainty::Confirmed, "README summary"@, shortened(join(para, " "@)), Some("README.md"@))]
            }
        },
    }
}

fn find_title(ls: &Vec<Vec<char>>, Ghost(lv): Ghost<Seq<Seq<char>>>) -> (r: Option<usize>)
    requires
        vv(ls@) == lv,
    ensures
        match r {
            Some(i) => title_index(lv, 0) == Some(i as int) && i < ls@.len() && ls@[i as int]@.len() >= 2,
            None => title_index(lv, 0) is None,
        },
{
    let mark = chars_of("# ");
    proof {
        reveal_strlit("# ");
    }
    let mut i: usize = 0;
    while i < ls.len()
        invariant
            i <= ls.len(),
            vv(ls@) == lv,
            mark@ == "# "@,
            mark@.len() == 2,
            title_index(lv, 0) == title_index(lv, i as int),
        decreases ls.len() - i,
    {
        assert(ls@[i as int]@ == lv[i as int]);
        if vec_starts_with(&ls[i], &mark) {
            assert(starts_with(lv[i as int], "# "@));
            assert(title_index(lv, i as int) == Some(i as int));
            return Some(i);
        }
        i = i + 1;
    }
    None
}

/// Title and first paragraph of the README.
pub fn readme_findings(text: &str) -> (r: Vec<Finding>)
    ensures
        findings_view(r@) == readme_view(text@),
{
    let t = chars_of(text);
    let ls = lines_vec(&t);
    let ghost lv = lines(text@);
    assert(vv(ls@) =~= lv);
    let mut r: Vec<Finding> = Vec::new();
    let ti = match find_title(&ls, Ghost(lv)) {
        None => {
            assert(findings_view(r@) =~= Seq::<FindingView>::empty());
            return r;
        },
        Some(ti) => ti,
    };
    let tl = &ls[ti];
    let title_chars = crate::text::slice_vec(tl, 2, tl.len());
    assert(title_chars@ =~= lv[ti as int].skip(2));
    let title = string_of(&trim_vec(&title_chars));
    let f = Finding::confirmed("Title", title.as_str(), Some("README.md"));
    r.push(f);
    assert(ti < ls.len());
    let mut j: usize = ti + 1;
    while j < ls.len() && trim_vec(&ls[j]).len() == 0
        invariant
            ti < j <= ls.len(),
            vv(ls@) == lv,
            skip_blank(lv, ti + 1) == skip_blank(lv, j as int),
        decreases ls.len() - j,
    {
        j = j + 1;
    }
    assert(skip_blank(lv, ti + 1) == j as int);
    let mut para: Vec<String> = Vec::new();
    let start = j;
    let mut k: usize = j;
    loop
        invariant
            start <= k <= ls.len(),
            vv(ls@) == lv,
            sv(para@) + paragraph(lv, k as int) == paragraph(lv, start as int),
        ensures
            sv(para@) == paragraph(lv, start as int),
        decreases ls.len() - k,
    {
        if k >= ls.len() {
            assert(sv(para@) + Seq::<Seq<char>>::empty() =~= sv(para@));
            break;
        }
        let line = trim_vec(&ls[k]);
        assert(line@ == trim(lv[k as int]));
        if line.len() == 0 || line[0] == '#' {
            assert(paragraph(lv, k as int) =~= Seq::<Seq<char>>::empty());
            assert(sv(para@) + Seq::<Seq<char>>::empty() =~= sv(para@));
            break;
        }
        let s = string_of(&line);
        let ghost before = para@;
        para.push(s);
        assert(sv(para@) =~= sv(before).push(s@));
        assert(sv(para@) + paragraph(lv, k + 1) =~= sv(before) + (seq![s@] + paragraph(lv, k + 1)));
        k = k + 1;
    }
    if para.len() > 0 {
        let joined = join_strings(&para, " ");
        let summary = shorten(joined.as_str());
        let g = Finding::confirmed("README summary", summary.as_str(), Some("README.md"));
        r.push(g);
        assert(findings_view(r@) =~= seq![finding_view(f), finding_view(g)]);
    } else {
        assert(findings_view(r@) =~= seq![finding_view(f)]);
    }
    r
}

/// At most the first `n` items.
pub open spec fn at_most(s: Seq<Seq<char>>, n: int) -> Seq<Seq<char>> {
    if s.len() <= n {
        s
    } else {
        s.take(n)
    }
}

/// An agent or contributor document: its name, with its first ten `## `
/// headings when it has any.
pub open spec fn document_view(file: Seq<char>, text: Seq<char>) -> FindingView {
    let hs = at_most(headings_of(text, "## "@), MAX_HEADINGS as int);
    let t = if hs.len() == 0 {
        file
    } else {
        file + " (headings: "@ + join(hs, ", "@) + ")"@
    };
    (Certainty::Confirmed, "Document"@, t, Some(file))
}

pub fn document_finding(file: &str, text: &str) -> (r: Finding)
    ensures
        finding_view(r) == document_view(file@, text@),
{
    let all = headings(text, "## ");
    let mut hs: Vec<String> = Vec::new();
    let mut i: usize = 0;
    while i < all.len() && i < MAX_HEADINGS
        invariant
            i <= all.len(),
            i <= MAX_HEADINGS,
            sv(hs@) == sv(all@).take(i as int),
        decreases all.len() - i,
    {
        let ghost before = hs@;
        let c = all[i].clone();
        hs.push(c);
        assert(sv(hs@) =~= sv(before).push(c@));
        assert(sv(all@).take(i + 1) =~= sv(all@).take(i as int).push(all@[i as int]@));
        i = i + 1;
    }
    assert(sv(hs@) =~= at_most(headings_of(text@, "## "@), MAX_HEADINGS as int)) by {
        if sv(all@).len() <= MAX_HEADINGS {
            assert(sv(all@).take(i as int) =~= sv(all@));
        }
    }
    if hs.len() == 0 {
        Finding::confirmed("Document", file, Some(file))
    } else {
        let mut t = String::new();
        t.append(file);
        t.append(" (headings: ");
        let list = join_strings(&hs, ", ");
        t.append(list.as_str());
        t.append(")");
        Finding::confirmed("Document", t.as_str(), Some(file))
    }
}

/// A Markdown file under `docs/`: its path, with its first `# ` title.
pub open spec fn doc_file_view(relative: Seq<char>, text: Seq<char>) -> FindingView {
    let hs = headings_of(text, "# "@);
    let t = if hs.len() == 0 {
        relative
    } else {
        relative + " — "@ + hs[0]
    };
    (Certainty::Confirmed, "Docs"@, t, Some(relative))
}

pub fn doc_file_finding(relative: &str, text: &str) -> (r: Finding)
    ensures
        finding_view(r) == doc_file_view(relative@, text@),
{
    let hs = headings(text, "# ");
    if hs.len() == 0 {
        Finding::confirmed("Docs", relative, Some(relative))
    } else {
        let mut t = String::new();
        t.append(relative);
        t.append(" — ");
        t.append(hs[0].as_str());
        assert(sv(hs@)[0] == hs@[0]@);
        Finding::confirmed("Docs", t.as_str(), Some(relative))
    }
}

/// Without a README the purpose is unknown.
pub open spec fn no_readme_view() -> FindingView {
    (Certainty::Unknown, "Purpose"@, "No README found; the project purpose is unknown."@, None)
}

pub open spec fn documents_view(documents: Seq<(String, String)>) -> Seq<FindingView> {
    documents.map_values(|d: (String, String)| document_view(d.0@, d.1@))
}

pub open spec fn doc_files_view(docs: Seq<(String, String)>) -> Seq<FindingView> {
    docs.map_values(|d: (String, String)| doc_file_view(d.0@, d.1@))
}

/// The documentation findings: the README (or its absence), the agent and
/// contributor documents that were read, then the files under `docs/`
/// (by path relative to the project, as read).
pub fn docs_findings(readme: Option<&str>, documents: &Vec<(String, String)>, docs: &Vec<(String, String)>) -> (r: Vec<Finding>)
    ensures
        findings_view(r@) == match readme {
            Some(t) => readme_view(t@),
            None => seq![no_readme_view()],
        } + documents_view(documents@) + doc_files_view(docs@),
{
    let mut r = match readme {
        Some(t) => readme_findings(t),
        None => {
            let mut v: Vec<Finding> = Vec::new();
            let f = Finding::unknown("Purpose", "No README found; the project purpose is unknown.");
            v.push(f);
            assert(findings_view(v@) =~= seq![no_readme_view()]);
            v
        },
    };
    let ghost head = findings_view(r@);
    let mut i: usize = 0;
    while i < documents.len()
        invariant
            i <= documents.len(),
            findings_view(r@) == head + documents_view(documents@).take(i as int),
        decreases documents.len() - i,
    {
        let f = document_finding(documents[i].0.as_str(), documents[i].1.as_str());
        let ghost before = r@;
        r.push(f);
        assert(findings_view(r@) =~= findings_view(before).push(finding_view(f)));
        assert(documents_view(documents@).take(i + 1) =~= documents_view(documents@).take(i as int).push(finding_view(f)));
        i = i + 1;
    }
    assert(documents_view(documents@).take(documents.len() as int) =~= documents_view(documents@));
    let ghost mid = findings_view(r@);
    let mut k: usize = 0;
    while k < docs.len()
        invariant
            k <= docs.len(),
            findings_view(r@) == mid + doc_files_view(docs@).take(k as int),
        decreases docs.len() - k,
    {
        let f = doc_file_finding(docs[k].0.as_str(), docs[k].1.as_str());
        let ghost before = r@;
        r.push(f);
        assert(findings_view(r@) =~= findings_view(before).push(finding_view(f)));
        assert(doc_files_view(docs@).take(k + 1) =~= doc_files_view(docs@).take(k as int).push(finding_view(f)));
        k = k + 1;
    }
    assert(doc_files_view(docs@).take(docs.len() as int) =~= doc_files_view(docs@));
    r
}

// ---------------------------------------------------------------------------
// Which files of docs/ are read
// ---------------------------------------------------------------------------

/// A file under `docs/` that is read: at most `MAX_DOC_DEPTH` directories
/// deep (`docs` itself included), no hidden component, a `.md` name. `p` is
/// its path relative to the project, with `/` between components.
pub open spec fn doc_candidate(p: Seq<char>) -> bool {
    let cs = split(p, '/');
    &&& 2 <= cs.len() <= MAX_DOC_DEPTH + 1
    &&& cs[0] == "docs"@
    &&& forall|i: int| 1 <= i < cs.len() ==> (#[trigger] cs[i]).len() > 0 && cs[i][0] != '.'
    &&& ends_with(p, ".md"@)
}

/// The characters of a path for ordering it component by component: `/`
/// below every other character.
pub open spec fn path_codes(p: Seq<char>) -> Seq<int> {
    p.map_values(|c: char| if c == '/' { 0int } else { (c as u32) as int + 1 })
}

/// No path comes after one that sorts above it, component by component.
pub open spec fn paths_sorted(s: Seq<Seq<char>>) -> bool {
    forall|i: int, j: int| 0 <= i < j < s.len() ==> !seq_lt(path_codes(#[trigger] s[j]), path_codes(#[trigger] s[i]))
}

struct DocPath(String);

fn code_of(c: char) -> (r: u64)
    ensures
        r == (if c == '/' { 0int } else { (c as u32) as int + 1 }),
{
    if c == '/' {
        0
    } else {
        proof {
            vstd::utf8::char_u32_cast(c, c as u32);
        }
        (c as u32) as u64 + 1
    }
}

fn path_before(a: &[char], b: &[char]) -> (r: bool)
    ensures
        r == seq_lt(path_codes(a@), path_codes(b@)),
{
    let mut i: usize = 0;
    while i < a.len() && i < b.len() && a[i] == b[i]
        invariant
            i <= a.len(),
            i <= b.len(),
            forall|j: int| 0 <= j < i ==> a@[j] == b@[j],
        decreases a.len() - i,
    {
        i = i + 1;
    }
    let ghost ca = path_codes(a@);
    let ghost cb = path_codes(b@);
    proof {
        lemma_seq_lt_skip(ca, cb, i as int);
    }
    let ghost sa = ca.subrange(i as int, ca.len() as int);
    let ghost sb = cb.subrange(i as int, cb.len() as int);
    if i == a.len() {
        assert(sa.len() == 0);
        i < b.len()
    } else if i == b.len() {
        assert(sb.len() == 0 && sa.len() > 0);
        false
    } else {
        let x = code_of(a[i]);
        let y = code_of(b[i]);
        assert(sa[0] == x && sb[0] == y);
        proof {
            vstd::utf8::char_u32_cast(a@[i as int], a@[i as int] as u32);
            vstd::utf8::char_u32_cast(b@[i as int], b@[i as int] as u32);
        }
        assert(x != y);
        x < y
    }
}

impl SortKey for DocPath {
    closed spec fn sort_key(&self) -> Seq<int> {
        path_codes(self.0@)
    }

    fn key_before(&self, other: &Self) -> (r: bool) {
        path_before(&chars_of(self.0.as_str()), &chars_of(other.0.as_str()))
    }
}

fn is_candidate(p: &String) -> (b: bool)
    ensures
        b == doc_candidate(p@),
{
    let v = chars_of(p.as_str());
    let cs = split_vec(&v, '/');
    proof {
        reveal_strlit("docs");
        reveal_strlit(".md");
    }
    if cs.len() < 2 || cs.len() > MAX_DOC_DEPTH + 1 {
        return false;
    }
    assert(cs@[0]@ == split(p@, '/')[0]);
    if !vec_eq(&cs[0], &chars_of("docs")) {
        return false;
    }
    let mut i: usize = 1;
    while i < cs.len()
        invariant
            1 <= i <= cs.len(),
            cs@.len() == split(p@, '/').len(),
            forall|k: int| 0 <= k < cs@.len() ==> #[trigger] cs@[k]@ == split(p@, '/')[k],
            forall|k: int| 1 <= k < i ==> (#[trigger] split(p@, '/')[k]).len() > 0 && split(p@, '/')[k][0] != '.',
        decreases cs.len() - i,
    {
        assert(cs@[i as int]@ == split(p@, '/')[i as int]);
        if cs[i].len() == 0 || cs[i][0] == '.' {
            return false;
        }
        i = i + 1;
    }
    vec_ends_with(&v, &chars_of(".md"))
}

pub open spec fn paths_view(v: Seq<String>) -> Seq<Seq<char>> {
    v.map_values(|p: String| p@)
}

/// The files of `docs/` that are read, given every file found there (by
/// path relative to the project): the candidates, sorted component by
/// component, at most `MAX_DOC_FILES` of them.
pub fn doc_files(paths: Vec<String>) -> (r: Vec<String>)
    ensures
        exists|s: Seq<Seq<char>>| #![trigger paths_sorted(s)]
            paths_sorted(s)
            && s.to_multiset() == paths_view(paths@).filter(|p: Seq<char>| doc_candidate(p)).to_multiset()
            && paths_view(r@) == s.take(if s.len() < MAX_DOC_FILES { s.len() as int } else { MAX_DOC_FILES as int }),
{
    let ghost f = |p: Seq<char>| doc_candidate(p);
    let ghost all = paths_view(paths@);
    let mut kept: Vec<DocPath> = Vec::new();
    let mut i: usize = 0;
    proof {
        reveal(Seq::filter);
        assert(all.take(0) =~= Seq::<Seq<char>>::empty());
    }
    while i < paths.len()
        invariant
            i <= paths.len(),
            f == (|p: Seq<char>| doc_candidate(p)),
            all == paths_view(paths@),
            kept@.map_values(|d: DocPath| d.0@) == all.take(i as int).filter(f),
        decreases paths.len() - i,
    {
        proof {
            reveal(Seq::filter);
            assert(all.take(i + 1).drop_last() =~= all.take(i as int));
            assert(all.take(i + 1).last() == paths@[i as int]@);
        }
        if is_candidate(&paths[i]) {
            let ghost before = kept@;
            let d = DocPath(paths[i].clone());
            kept.push(d);
            assert(kept@.map_values(|d: DocPath| d.0@) =~= before.map_values(|d: DocPath| d.0@).push(
                paths@[i as int]@,
            ));
        }
        i = i + 1;
    }
    assert(all.take(paths.len() as int) =~= all);
    let ghost kv = kept@;
    let sorted = sort_by_key(kept);
    let ghost sv = sorted@.map_values(|d: DocPath| d.0@);
    proof {
        crate::order::lemma_multiset_map(sorted@, kv, |d: DocPath| d.0@);
        assert forall|a: int, b: int| 0 <= a < b < sv.len() implies !seq_lt(path_codes(#[trigger] sv[b]), path_codes(#[trigger] sv[a])) by {
            assert(sorted@[b].sort_key() == path_codes(sv[b]));
            assert(sorted@[a].sort_key() == path_codes(sv[a]));
        }
    }
    let n = if sorted.len() < MAX_DOC_FILES { sorted.len() } else { MAX_DOC_FILES };
    let mut out: Vec<String> = Vec::new();
    let mut j: usize = 0;
    while j < n
        invariant
            j <= n <= sorted.len(),
            sv == sorted@.map_values(|d: DocPath| d.0@),
            paths_view(out@) == sv.take(j as int),
        decreases n - j,
    {
        let ghost before = out@;
        out.push(sorted[j].0.clone());
        assert(paths_view(out@) =~= paths_view(before).push(sv[j as int]));
        assert(sv.take(j + 1) =~= sv.take(j as int).push(sv[j as int]));
        j = j + 1;
    }
    assert(paths_sorted(sv));
    out
}

} // verus!
