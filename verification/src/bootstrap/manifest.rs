//! Findings from manifest files: `Cargo.toml`, `package.json`, `go.mod`,
//! `pyproject.toml`.
//!
//! Facts read from a manifest are `Confirmed`. What a dependency suggests
//! (e.g. tokio → async runtime) is only `Inferred`. Broken manifests are
//! ignored. Reading the files happens outside the library; the TOML and
//! JSON parsers are called here.

use vstd::prelude::*;

use super::report::{finding_view, findings_view, Certainty, Finding, FindingView};
use crate::text::{
    ascii_lower, char_ascii_lower, char_is_alnum, chars_of, is_alnum, join, join_strings, lines,
    lines_vec, push_char, str_eq, string_of, strip_prefix, sv, trim, trim_vec, vec_starts_with, vv,
};

verus! {

/// At most this many dependencies are listed.
pub const MAX_DEPENDENCIES: usize = 20;

/// A parsed TOML or JSON value, as far as manifests are read.
#[derive(Debug)]
pub enum Node {
    Text(String),
    Array(Vec<Node>),
    /// Keys and values in the order the parser gives them.
    Table(Vec<Entry>),
    /// Numbers, booleans, dates and nulls.
    Other,
}

/// A key of a table and its value.
#[derive(Debug)]
pub struct Entry {
    pub key: String,
    pub value: Node,
}

#[verifier::external_type_specification]
#[verifier::external_body]
pub struct ExTomlValue(toml::Value);

#[verifier::external_type_specification]
#[verifier::external_body]
pub struct ExJsonValue(serde_json::Value);

/// What `toml::Table::from_str` reads from a text, converted to `Node`
/// (`None` when the text is not a TOML document).
pub uninterp spec fn toml_table_of(text: Seq<char>) -> Option<Node>;

/// What `serde_json::from_str::<serde_json::Value>` reads from a text,
/// converted to `Node` (`None` when the text is not JSON).
pub uninterp spec fn json_value_of(text: Seq<char>) -> Option<Node>;

/// Converts a `toml::Value`, variant by variant; the conversion of
/// `parse_toml_table`.
#[verifier::external_body]
fn from_toml(v: &toml::Value) -> Node {
    match v {
        toml::Value::String(s) => Node::Text(s.clone()),
        toml::Value::Array(items) => Node::Array(items.iter().map(from_toml).collect()),
        toml::Value::Table(t) => Node::Table(t.iter().map(|(k, x)| Entry { key: k.clone(), value: from_toml(x) }).collect()),
        _ => Node::Other,
    }
}

/// Converts a `serde_json::Value`, variant by variant; the conversion of
/// `parse_json`.
#[verifier::external_body]
fn from_json(v: &serde_json::Value) -> Node {
    match v {
        serde_json::Value::String(s) => Node::Text(s.clone()),
        serde_json::Value::Array(items) => Node::Array(items.iter().map(from_json).collect()),
        serde_json::Value::Object(m) => Node::Table(m.iter().map(|(k, x)| Entry { key: k.clone(), value: from_json(x) }).collect()),
        _ => Node::Other,
    }
}

/// Parses a TOML document with `text.parse::<toml::Table>()`. The contract
/// claims that the result is a function of the text and that a document is
/// a table; what the parser accepts is not stated.
#[verifier::external_body]
fn parse_toml_table(text: &str) -> (r: Option<Node>)
    ensures
        r == toml_table_of(text@),
        r matches Some(v) ==> v is Table,
{
    text.parse::<toml::Table>().ok().map(|t| Node::Table(t.iter().map(|(k, x)| Entry { key: k.clone(), value: from_toml(x) }).collect()))
}

/// Parses JSON with `serde_json::from_str::<serde_json::Value>`. The
/// contract claims that the result is a function of the text; what the
/// parser accepts is not stated.
#[verifier::external_body]
fn parse_json(text: &str) -> (r: Option<Node>)
    ensures
        r == json_value_of(text@),
{
    serde_json::from_str::<serde_json::Value>(text).ok().map(|v| from_json(&v))
}

// ---------------------------------------------------------------------------
// Reading values
// ---------------------------------------------------------------------------

pub open spec fn entry_value(es: Seq<Entry>, key: Seq<char>) -> Option<Node>
    decreases es.len(),
{
    if es.len() == 0 {
        None
    } else if es[0].key@ == key {
        Some(es[0].value)
    } else {
        entry_value(es.drop_first(), key)
    }
}

/// The value under `key` of a table.
pub open spec fn get(v: Option<Node>, key: Seq<char>) -> Option<Node> {
    match v {
        Some(Node::Table(es)) => entry_value(es@, key),
        _ => None,
    }
}

/// A string value.
pub open spec fn text_of(v: Option<Node>) -> Option<Seq<char>> {
    match v {
        Some(Node::Text(s)) => Some(s@),
        _ => None,
    }
}

/// The keys of a table, in order; none for another value.
pub open spec fn keys_of(v: Option<Node>) -> Seq<Seq<char>> {
    match v {
        Some(Node::Table(es)) => es@.map_values(|e: Entry| e.key@),
        _ => Seq::empty(),
    }
}

/// The strings among `items`, in order.
pub open spec fn texts_in(items: Seq<Node>) -> Seq<Seq<char>>
    decreases items.len(),
{
    if items.len() == 0 {
        Seq::empty()
    } else {
        match items.last() {
            Node::Text(s) => texts_in(items.drop_last()).push(s@),
            _ => texts_in(items.drop_last()),
        }
    }
}

/// The strings of an array.
pub open spec fn array_texts(v: Option<Node>) -> Option<Seq<Seq<char>>> {
    match v {
        Some(Node::Array(items)) => Some(texts_in(items@)),
        _ => None,
    }
}

fn entry_lookup<'a>(es: &'a Vec<Entry>, key: &str) -> (r: Option<&'a Node>)
    ensures
        match r {
            Some(x) => entry_value(es@, key@) == Some(*x),
            None => entry_value(es@, key@) is None,
        },
{
    let ghost all = es@;
    let mut i: usize = 0;
    assert(all.subrange(0, all.len() as int) =~= all);
    while i < es.len()
        invariant
            i <= es.len(),
            all == es@,
            entry_value(all, key@) == entry_value(all.subrange(i as int, all.len() as int), key@),
        decreases es.len() - i,
    {
        assert(all.subrange(i as int, all.len() as int).drop_first() =~= all.subrange(i + 1, all.len() as int));
        assert(all.subrange(i as int, all.len() as int)[0] == es@[i as int]);
        if str_eq(key, &chars_of(es[i].key.as_str())) {
            return Some(&es[i].value);
        }
        i = i + 1;
    }
    assert(all.subrange(i as int, all.len() as int) =~= Seq::<Entry>::empty());
    None
}

fn get_value<'a>(v: Option<&'a Node>, key: &str) -> (r: Option<&'a Node>)
    ensures
        match r {
            Some(x) => get(
                match v {
                    Some(y) => Some(*y),
                    None => None,
                },
                key@,
            ) == Some(*x),
            None => get(
                match v {
                    Some(y) => Some(*y),
                    None => None,
                },
                key@,
            ) is None,
        },
{
    match v {
        Some(Node::Table(es)) => entry_lookup(es, key),
        _ => None,
    }
}

fn text_value(v: Option<&Node>) -> (r: Option<&str>)
    ensures
        match r {
            Some(s) => text_of(
                match v {
                    Some(y) => Some(*y),
                    None => None,
                },
            ) == Some(s@),
            None => text_of(
                match v {
                    Some(y) => Some(*y),
                    None => None,
                },
            ) is None,
        },
{
    match v {
        Some(Node::Text(s)) => Some(s.as_str()),
        _ => None,
    }
}

fn table_keys(v: Option<&Node>) -> (r: Vec<String>)
    ensures
        sv(r@) == keys_of(
            match v {
                Some(y) => Some(*y),
                None => None,
            },
        ),
{
    let mut out: Vec<String> = Vec::new();
    match v {
        Some(Node::Table(es)) => {
            let mut i: usize = 0;
            while i < es.len()
                invariant
                    i <= es.len(),
                    sv(out@) == es@.map_values(|e: Entry| e.key@).take(i as int),
                decreases es.len() - i,
            {
                let k = es[i].key.clone();
                let ghost before = out@;
                out.push(k);
                assert(sv(out@) =~= sv(before).push(k@));
                assert(es@.map_values(|e: Entry| e.key@).take(i + 1) =~= es@.map_values(
                    |e: Entry| e.key@,
                ).take(i as int).push(k@));
                i = i + 1;
            }
            assert(es@.map_values(|e: Entry| e.key@).take(es.len() as int) =~= es@.map_values(
                |e: Entry| e.key@,
            ));
        },
        _ => {
            assert(sv(out@) =~= Seq::<Seq<char>>::empty());
        },
    }
    out
}

fn array_strings(v: Option<&Node>) -> (r: Option<Vec<String>>)
    ensures
        match r {
            Some(x) => array_texts(
                match v {
                    Some(y) => Some(*y),
                    None => None,
                },
            ) == Some(sv(x@)),
            None => array_texts(
                match v {
                    Some(y) => Some(*y),
                    None => None,
                },
            ) is None,
        },
{
    match v {
        Some(Node::Array(items)) => {
            let mut out: Vec<String> = Vec::new();
            let mut i: usize = 0;
            assert(items@.take(0) =~= Seq::<Node>::empty());
            while i < items.len()
                invariant
                    i <= items.len(),
                    sv(out@) == texts_in(items@.take(i as int)),
                decreases items.len() - i,
            {
                assert(items@.take(i + 1).drop_last() =~= items@.take(i as int));
                assert(items@.take(i + 1).last() == items@[i as int]);
                match &items[i] {
                    Node::Text(s) => {
                        let c = s.clone();
                        let ghost before = out@;
                        out.push(c);
                        assert(sv(out@) =~= sv(before).push(c@));
                    },
                    _ => {},
                }
                i = i + 1;
            }
            assert(items@.take(items.len() as int) =~= items@);
            Some(out)
        },
        _ => None,
    }
}

// ---------------------------------------------------------------------------
// Dependencies
// ---------------------------------------------------------------------------

pub open spec fn lowercase(s: Seq<char>) -> Seq<char> {
    s.map_values(|c: char| ascii_lower(c))
}

/// What a dependency (named in any ASCII case) suggests: `(topic, text)`.
pub open spec fn inference(name: Seq<char>) -> Option<(Seq<char>, Seq<char>)> {
    let n = lowercase(name);
    if n == "tokio"@ {
        Some(("Async runtime"@, "Tokio appears to be used as the async runtime."@))
    } else if n == "async-std"@ {
        Some(("Async runtime"@, "async-std appears to be used as the async runtime."@))
    } else if n == "axum"@ || n == "actix-web"@ || n == "warp"@ || n == "rocket"@ || n == "django"@
        || n == "flask"@ || n == "fastapi"@ {
        Some(("Web framework"@, n + " appears to be used as the web framework."@))
    } else if n == "clap"@ {
        Some(("Interface"@, "This appears to be a CLI application (clap)."@))
    } else if n == "sqlx"@ || n == "diesel"@ || n == "sea-orm"@ {
        Some(("Database"@, n + " appears to be used for database access."@))
    } else if n == "reqwest"@ {
        Some(("HTTP client"@, "reqwest appears to be used as the HTTP client."@))
    } else if n == "react"@ || n == "vue"@ || n == "svelte"@ {
        Some(("UI framework"@, n + " appears to be used for the UI."@))
    } else if n == "next"@ {
        Some(("Web framework"@, "Next.js appears to be used."@))
    } else if n == "express"@ || n == "fastify"@ {
        Some(("Web framework"@, n + " appears to be used as the HTTP server."@))
    } else if n == "jest"@ || n == "vitest"@ {
        Some(("Testing"@, n + " appears to be used for tests."@))
    } else {
        None
    }
}

pub fn lowercase_string(s: &str) -> (r: String)
    ensures
        r@ == lowercase(s@),
{
    let v = chars_of(s);
    let mut out = String::new();
    let mut i: usize = 0;
    while i < v.len()
        invariant
            i <= v.len(),
            v@ == s@,
            out@ == lowercase(s@).take(i as int),
        decreases v.len() - i,
    {
        push_char(&mut out, char_ascii_lower(v[i]));
        assert(out@ =~= lowercase(s@).take(i + 1));
        i = i + 1;
    }
    assert(lowercase(s@).take(v.len() as int) =~= lowercase(s@));
    out
}

fn is_one_of(n: &String, names: &[&str]) -> (r: bool)
    ensures
        r == exists|i: int| 0 <= i < names@.len() && names@[i]@ == n@,
{
    let v = chars_of(n.as_str());
    let mut i: usize = 0;
    while i < names.len()
        invariant
            i <= names.len(),
            v@ == n@,
            forall|j: int| 0 <= j < i ==> names@[j]@ != n@,
        decreases names.len() - i,
    {
        if str_eq(names[i], &v) {
            return true;
        }
        i = i + 1;
    }
    false
}

fn with_suffix(n: &String, suffix: &str) -> (r: String)
    ensures
        r@ == n@ + suffix@,
{
    let mut s = n.clone();
    s.append(suffix);
    s
}

/// What a dependency suggests: `(topic, text)`.
pub fn infer_from_dependency(name: &str) -> (r: Option<(&'static str, String)>)
    ensures
        match inference(name@) {
            Some(p) => r matches Some(x) && x.0@ == p.0 && x.1@ == p.1,
            None => r is None,
        },
{
    let n = lowercase_string(name);
    let ghost l = lowercase(name@);
    proof {
        reveal_strlit("tokio");
        reveal_strlit("async-std");
        reveal_strlit("axum");
        reveal_strlit("actix-web");
        reveal_strlit("warp");
        reveal_strlit("rocket");
        reveal_strlit("django");
        reveal_strlit("flask");
        reveal_strlit("fastapi");
        reveal_strlit("clap");
        reveal_strlit("sqlx");
        reveal_strlit("diesel");
        reveal_strlit("sea-orm");
        reveal_strlit("reqwest");
        reveal_strlit("react");
        reveal_strlit("vue");
        reveal_strlit("svelte");
        reveal_strlit("next");
        reveal_strlit("express");
        reveal_strlit("fastify");
        reveal_strlit("jest");
        reveal_strlit("vitest");
    }
    let web: [&str; 7] = ["axum", "actix-web", "warp", "rocket", "django", "flask", "fastapi"];
    let db: [&str; 3] = ["sqlx", "diesel", "sea-orm"];
    let ui: [&str; 3] = ["react", "vue", "svelte"];
    let server: [&str; 2] = ["express", "fastify"];
    let testing: [&str; 2] = ["jest", "vitest"];
    assert(web@ =~= seq!["axum", "actix-web", "warp", "rocket", "django", "flask", "fastapi"]);
    assert(db@ =~= seq!["sqlx", "diesel", "sea-orm"]);
    assert(ui@ =~= seq!["react", "vue", "svelte"]);
    assert(server@ =~= seq!["express", "fastify"]);
    assert(testing@ =~= seq!["jest", "vitest"]);
    let v = chars_of(n.as_str());
    if str_eq("tokio", &v) {
        Some(("Async runtime", String::from_str("Tokio appears to be used as the async runtime.")))
    } else if str_eq("async-std", &v) {
        Some(("Async runtime", String::from_str("async-std appears to be used as the async runtime.")))
    } else if is_one_of(&n, web.as_slice()) {
        assert(l == "axum"@ || l == "actix-web"@ || l == "warp"@ || l == "rocket"@ || l == "django"@
            || l == "flask"@ || l == "fastapi"@);
        Some(("Web framework", with_suffix(&n, " appears to be used as the web framework.")))
    } else if str_eq("clap", &v) {
        Some(("Interface", String::from_str("This appears to be a CLI application (clap).")))
    } else if is_one_of(&n, db.as_slice()) {
        assert(l == "sqlx"@ || l == "diesel"@ || l == "sea-orm"@);
        Some(("Database", with_suffix(&n, " appears to be used for database access.")))
    } else if str_eq("reqwest", &v) {
        Some(("HTTP client", String::from_str("reqwest appears to be used as the HTTP client.")))
    } else if is_one_of(&n, ui.as_slice()) {
        assert(l == "react"@ || l == "vue"@ || l == "svelte"@);
        Some(("UI framework", with_suffix(&n, " appears to be used for the UI.")))
    } else if str_eq("next", &v) {
        Some(("Web framework", String::from_str("Next.js appears to be used.")))
    } else if is_one_of(&n, server.as_slice()) {
        assert(l == "express"@ || l == "fastify"@);
        Some(("Web framework", with_suffix(&n, " appears to be used as the HTTP server.")))
    } else if is_one_of(&n, testing.as_slice()) {
        assert(l == "jest"@ || l == "vitest"@);
        Some(("Testing", with_suffix(&n, " appears to be used for tests.")))
    } else {
        assert(!(l == "axum"@ || l == "actix-web"@ || l == "warp"@ || l == "rocket"@ || l == "django"@
            || l == "flask"@ || l == "fastapi"@)) by {
            if l == "axum"@ { assert(web@[0]@ == l); }
            if l == "actix-web"@ { assert(web@[1]@ == l); }
            if l == "warp"@ { assert(web@[2]@ == l); }
            if l == "rocket"@ { assert(web@[3]@ == l); }
            if l == "django"@ { assert(web@[4]@ == l); }
            if l == "flask"@ { assert(web@[5]@ == l); }
            if l == "fastapi"@ { assert(web@[6]@ == l); }
        }
        assert(!(l == "sqlx"@ || l == "diesel"@ || l == "sea-orm"@)) by {
            if l == "sqlx"@ { assert(db@[0]@ == l); }
            if l == "diesel"@ { assert(db@[1]@ == l); }
            if l == "sea-orm"@ { assert(db@[2]@ == l); }
        }
        assert(!(l == "react"@ || l == "vue"@ || l == "svelte"@)) by {
            if l == "react"@ { assert(ui@[0]@ == l); }
            if l == "vue"@ { assert(ui@[1]@ == l); }
            if l == "svelte"@ { assert(ui@[2]@ == l); }
        }
        assert(!(l == "express"@ || l == "fastify"@)) by {
            if l == "express"@ { assert(server@[0]@ == l); }
            if l == "fastify"@ { assert(server@[1]@ == l); }
        }
        assert(!(l == "jest"@ || l == "vitest"@)) by {
            if l == "jest"@ { assert(testing@[0]@ == l); }
            if l == "vitest"@ { assert(testing@[1]@ == l); }
        }
        None
    }
}

/// The inferences of the dependencies, each once, in order.
pub open spec fn inferences(names: Seq<Seq<char>>) -> Seq<(Seq<char>, Seq<char>)>
    decreases names.len(),
{
    if names.len() == 0 {
        Seq::empty()
    } else {
        let r = inferences(names.drop_last());
        match inference(names.last()) {
            Some(p) => if r.contains(p) {
                r
            } else {
                r.push(p)
            },
            None => r,
        }
    }
}

/// At most the first `n` items.
pub open spec fn first_n(s: Seq<Seq<char>>, n: int) -> Seq<Seq<char>> {
    if s.len() <= n {
        s
    } else {
        s.take(n)
    }
}

/// `Dependencies: a, b, ...` (first 20) plus one inference per dependency.
pub open spec fn dependency_view(names: Seq<Seq<char>>, source: Seq<char>) -> Seq<FindingView> {
    let head = if names.len() == 0 {
        Seq::<FindingView>::empty()
    } else {
        seq![(Certainty::Confirmed, "Dependencies"@, join(first_n(names, MAX_DEPENDENCIES as int), ", "@), Some(source))]
    };
    head + inferences(names).map_values(
        |p: (Seq<char>, Seq<char>)| (Certainty::Inferred, p.0, p.1, Some(source)),
    )
}

fn seen_pair(found: &Vec<(&'static str, String)>, topic: &str, text: &String) -> (r: bool)
    ensures
        r == found@.map_values(|p: (&'static str, String)| (p.0@, p.1@)).contains((topic@, text@)),
{
    let ghost fv = found@.map_values(|p: (&'static str, String)| (p.0@, p.1@));
    let t = chars_of(topic);
    let x = chars_of(text.as_str());
    let mut i: usize = 0;
    while i < found.len()
        invariant
            i <= found.len(),
            fv == found@.map_values(|p: (&'static str, String)| (p.0@, p.1@)),
            t@ == topic@,
            x@ == text@,
            forall|j: int| 0 <= j < i ==> fv[j] != (topic@, text@),
        decreases found.len() - i,
    {
        if str_eq(found[i].0, &t) && str_eq(found[i].1.as_str(), &x) {
            assert(fv[i as int] == (topic@, text@));
            return true;
        }
        i = i + 1;
    }
    false
}

/// The dependency findings of a manifest named `source`.
pub fn dependency_findings(names: &Vec<String>, source: &str) -> (r: Vec<Finding>)
    ensures
        findings_view(r@) == dependency_view(sv(names@), source@),
{
    let mut out: Vec<Finding> = Vec::new();
    if names.len() > 0 {
        let mut shown: Vec<String> = Vec::new();
        let mut i: usize = 0;
        while i < names.len() && i < MAX_DEPENDENCIES
            invariant
                i <= names.len(),
                i <= MAX_DEPENDENCIES,
                sv(shown@) == sv(names@).take(i as int),
            decreases names.len() - i,
        {
            let c = names[i].clone();
            let ghost before = shown@;
            shown.push(c);
            assert(sv(shown@) =~= sv(before).push(c@));
            assert(sv(names@).take(i + 1) =~= sv(names@).take(i as int).push(names@[i as int]@));
            i = i + 1;
        }
        assert(sv(shown@) =~= first_n(sv(names@), MAX_DEPENDENCIES as int)) by {
            if sv(names@).len() <= MAX_DEPENDENCIES {
                assert(sv(names@).take(i as int) =~= sv(names@));
            }
        }
        let list = join_strings(&shown, ", ");
        let f = Finding::confirmed("Dependencies", list.as_str(), Some(source));
        out.push(f);
    }
    let ghost head = findings_view(out@);
    assert(head =~= if sv(names@).len() == 0 {
        Seq::<FindingView>::empty()
    } else {
        seq![(Certainty::Confirmed, "Dependencies"@, join(first_n(sv(names@), MAX_DEPENDENCIES as int), ", "@), Some(source@))]
    });
    let mut found: Vec<(&'static str, String)> = Vec::new();
    let ghost nv = sv(names@);
    let mut k: usize = 0;
    assert(nv.take(0) =~= Seq::<Seq<char>>::empty());
    assert(found@.map_values(|p: (&'static str, String)| (p.0@, p.1@)) =~= Seq::<(Seq<char>, Seq<char>)>::empty());
    while k < names.len()
        invariant
            k <= names.len(),
            nv == sv(names@),
            found@.map_values(|p: (&'static str, String)| (p.0@, p.1@)) == inferences(nv.take(k as int)),
        decreases names.len() - k,
    {
        assert(nv.take(k + 1).drop_last() =~= nv.take(k as int));
        assert(nv.take(k + 1).last() == names@[k as int]@);
        match infer_from_dependency(names[k].as_str()) {
            Some(p) => {
                if !seen_pair(&found, p.0, &p.1) {
                    let ghost before = found@;
                    let ghost pv = (p.0@, p.1@);
                    found.push(p);
                    assert(found@.map_values(|p: (&'static str, String)| (p.0@, p.1@)) =~= before.map_values(
                        |p: (&'static str, String)| (p.0@, p.1@),
                    ).push(pv));
                }
            },
            None => {},
        }
        k = k + 1;
    }
    assert(nv.take(names.len() as int) =~= nv);
    let ghost inf = inferences(nv);
    let mut j: usize = 0;
    while j < found.len()
        invariant
            j <= found.len(),
            found@.map_values(|p: (&'static str, String)| (p.0@, p.1@)) == inf,
            findings_view(out@) == head + inf.take(j as int).map_values(
                |p: (Seq<char>, Seq<char>)| (Certainty::Inferred, p.0, p.1, Some(source@)),
            ),
        decreases found.len() - j,
    {
        let f = Finding::inferred(found[j].0, found[j].1.as_str(), Some(source));
        let ghost before = out@;
        out.push(f);
        assert(inf[j as int] == (found@[j as int].0@, found@[j as int].1@));
        assert(inf.take(j + 1) =~= inf.take(j as int).push(inf[j as int]));
        assert(findings_view(out@) =~= findings_view(before).push(finding_view(f)));
        assert(findings_view(out@) =~= head + inf.take(j + 1).map_values(
            |p: (Seq<char>, Seq<char>)| (Certainty::Inferred, p.0, p.1, Some(source@)),
        ));
        j = j + 1;
    }
    assert(inf.take(found.len() as int) =~= inf);
    out
}

// ---------------------------------------------------------------------------
// Manifests
// ---------------------------------------------------------------------------

pub open spec fn confirmed(topic: Seq<char>, text: Seq<char>, source: Seq<char>) -> FindingView {
    (Certainty::Confirmed, topic, text, Some(source))
}

/// `Cargo.toml` (parsed): language, package, workspace members, crate
/// type and dependencies (those of the workspace when the package has
/// none). `has_main_rs` and `has_lib_rs` say whether `src/main.rs` and
/// `src/lib.rs` exist.
pub open spec fn cargo_view(doc: Node, has_main_rs: bool, has_lib_rs: bool) -> Seq<FindingView> {
    let src = "Cargo.toml"@;
    let d = Some(doc);
    let ws = get(d, "workspace"@);
    let package = match text_of(get(get(d, "package"@), "name"@)) {
        Some(n) => seq![confirmed("Package"@, n, src)],
        None => Seq::empty(),
    };
    let members = match array_texts(get(ws, "members"@)) {
        Some(m) => if m.len() > 0 {
            seq![confirmed("Workspace members"@, join(m, ", "@), src)]
        } else {
            Seq::empty()
        },
        None => Seq::empty(),
    };
    let kinds = (if has_main_rs || get(d, "bin"@) is Some {
        seq!["binary"@]
    } else {
        Seq::empty()
    }) + (if has_lib_rs {
        seq!["library"@]
    } else {
        Seq::empty()
    });
    let crate_type = if kinds.len() > 0 {
        seq![confirmed("Crate type"@, join(kinds, ", "@), src)]
    } else {
        Seq::empty()
    };
    let own = keys_of(get(d, "dependencies"@));
    let deps = if own.len() == 0 {
        keys_of(get(ws, "dependencies"@))
    } else {
        own
    };
    seq![confirmed("Language"@, "Rust"@, src)] + package + members + crate_type + dependency_view(deps, src)
}

fn push_all(out: &mut Vec<Finding>, more: Vec<Finding>)
    ensures
        findings_view(final(out)@) == findings_view(old(out)@) + findings_view(more@),
{
    let mut more = more;
    let ghost a = out@;
    let ghost b = more@;
    out.append(&mut more);
    assert(out@ == a + b);
    assert(findings_view(out@) =~= findings_view(a) + findings_view(b));
}

/// A confirmed finding of `source`.
fn fact(topic: &str, text: &str, source: &str) -> (f: Finding)
    ensures
        finding_view(f) == confirmed(topic@, text@, source@),
{
    Finding::confirmed(topic, text, Some(source))
}

/// The findings of a parsed `Cargo.toml`; see `cargo_view`.
pub fn cargo_findings(doc: &Node, has_main_rs: bool, has_lib_rs: bool) -> (r: Vec<Finding>)
    ensures
        findings_view(r@) == cargo_view(*doc, has_main_rs, has_lib_rs),
{
    let src = "Cargo.toml";
    let d = Some(doc);
    let mut out: Vec<Finding> = Vec::new();
    out.push(fact("Language", "Rust", src));
    let ws = get_value(d, "workspace");
    let package = get_value(d, "package");
    let mut package_part: Vec<Finding> = Vec::new();
    if let Some(name) = text_value(get_value(package, "name")) {
        package_part.push(fact("Package", name, src));
    }
    let mut members_part: Vec<Finding> = Vec::new();
    if let Some(members) = array_strings(get_value(ws, "members")) {
        if members.len() > 0 {
            let list = join_strings(&members, ", ");
            members_part.push(fact("Workspace members", list.as_str(), src));
        }
    }
    let mut kinds: Vec<String> = Vec::new();
    if has_main_rs || get_value(d, "bin").is_some() {
        kinds.push(String::from_str("binary"));
    }
    if has_lib_rs {
        kinds.push(String::from_str("library"));
    }
    let mut kind_part: Vec<Finding> = Vec::new();
    if kinds.len() > 0 {
        let list = join_strings(&kinds, ", ");
        kind_part.push(fact("Crate type", list.as_str(), src));
    }
    let mut deps = table_keys(get_value(d, "dependencies"));
    if deps.len() == 0 {
        deps = table_keys(get_value(ws, "dependencies"));
    }
    let dep_part = dependency_findings(&deps, src);
    let ghost lang = findings_view(out@);
    push_all(&mut out, package_part);
    push_all(&mut out, members_part);
    push_all(&mut out, kind_part);
    push_all(&mut out, dep_part);
    proof {
        reveal_strlit("binary");
        reveal_strlit("library");
        let dv = Some(*doc);
        let kv = (if has_main_rs || get(dv, "bin"@) is Some {
            seq!["binary"@]
        } else {
            Seq::empty()
        }) + (if has_lib_rs {
            seq!["library"@]
        } else {
            Seq::empty()
        });
        assert(sv(kinds@) =~= kv);
    }
    out
}

/// The findings of `Cargo.toml`, given its text when it could be read.
pub fn cargo(text: Option<&str>, has_main_rs: bool, has_lib_rs: bool) -> (r: Vec<Finding>)
    ensures
        findings_view(r@) == match text {
            Some(t) => match toml_table_of(t@) {
                Some(doc) => cargo_view(doc, has_main_rs, has_lib_rs),
                None => Seq::empty(),
            },
            None => Seq::<FindingView>::empty(),
        },
{
    let empty: Vec<Finding> = Vec::new();
    assert(findings_view(empty@) =~= Seq::<FindingView>::empty());
    match text {
        None => empty,
        Some(t) => match parse_toml_table(t) {
            Some(doc) => cargo_findings(&doc, has_main_rs, has_lib_rs),
            None => empty,
        },
    }
}

/// Whether `names` holds `x`.
pub open spec fn has_name(names: Seq<Seq<char>>, x: Seq<char>) -> bool {
    exists|i: int| 0 <= i < names.len() && names[i] == x
}

/// `package.json` (parsed): language (TypeScript when it depends on
/// `typescript` or `has_tsconfig`), package, scripts and dependencies
/// (runtime ones, then development ones).
pub open spec fn package_json_view(doc: Node, has_tsconfig: bool) -> Seq<FindingView> {
    let src = "package.json"@;
    let d = Some(doc);
    let deps = keys_of(get(d, "dependencies"@)) + keys_of(get(d, "devDependencies"@));
    let language = if has_name(deps, "typescript"@) || has_tsconfig {
        "TypeScript"@
    } else {
        "JavaScript"@
    };
    let package = match text_of(get(d, "name"@)) {
        Some(n) => seq![confirmed("Package"@, n, src)],
        None => Seq::empty(),
    };
    let scripts = keys_of(get(d, "scripts"@));
    let scripts_part = if scripts.len() > 0 {
        seq![confirmed("Scripts"@, join(scripts, ", "@), src)]
    } else {
        Seq::empty()
    };
    seq![confirmed("Language"@, language, src)] + package + scripts_part + dependency_view(deps, src)
}

fn holds_name(names: &Vec<String>, x: &str) -> (r: bool)
    ensures
        r == has_name(sv(names@), x@),
{
    let mut i: usize = 0;
    while i < names.len()
        invariant
            i <= names.len(),
            forall|j: int| 0 <= j < i ==> sv(names@)[j] != x@,
        decreases names.len() - i,
    {
        if str_eq(x, &chars_of(names[i].as_str())) {
            assert(sv(names@)[i as int] == x@);
            return true;
        }
        i = i + 1;
    }
    false
}

/// The findings of a parsed `package.json`; see `package_json_view`.
pub fn package_json_findings(doc: &Node, has_tsconfig: bool) -> (r: Vec<Finding>)
    ensures
        findings_view(r@) == package_json_view(*doc, has_tsconfig),
{
    let src = "package.json";
    let d = Some(doc);
    let mut deps = table_keys(get_value(d, "dependencies"));
    let mut dev = table_keys(get_value(d, "devDependencies"));
    let ghost dv = sv(deps@);
    let ghost ddv = sv(dev@);
    deps.append(&mut dev);
    assert(sv(deps@) =~= dv + ddv);
    let typescript = holds_name(&deps, "typescript") || has_tsconfig;
    let mut out: Vec<Finding> = Vec::new();
    if typescript {
        out.push(fact("Language", "TypeScript", src));
    } else {
        out.push(fact("Language", "JavaScript", src));
    }
    let mut package_part: Vec<Finding> = Vec::new();
    if let Some(name) = text_value(get_value(d, "name")) {
        package_part.push(fact("Package", name, src));
    }
    let scripts = table_keys(get_value(d, "scripts"));
    let mut scripts_part: Vec<Finding> = Vec::new();
    if scripts.len() > 0 {
        let list = join_strings(&scripts, ", ");
        scripts_part.push(fact("Scripts", list.as_str(), src));
    }
    let dep_part = dependency_findings(&deps, src);
    push_all(&mut out, package_part);
    push_all(&mut out, scripts_part);
    push_all(&mut out, dep_part);
    out
}

/// The findings of `package.json`, given its text when it could be read.
pub fn package_json(text: Option<&str>, has_tsconfig: bool) -> (r: Vec<Finding>)
    ensures
        findings_view(r@) == match text {
            Some(t) => match json_value_of(t@) {
                Some(doc) => package_json_view(doc, has_tsconfig),
                None => Seq::empty(),
            },
            None => Seq::<FindingView>::empty(),
        },
{
    let empty: Vec<Finding> = Vec::new();
    assert(findings_view(empty@) =~= Seq::<FindingView>::empty());
    match text {
        None => empty,
        Some(t) => match parse_json(t) {
            Some(doc) => package_json_findings(&doc, has_tsconfig),
            None => empty,
        },
    }
}

/// The `module` and `go` lines of `go.mod`, trimmed, in order.
pub open spec fn go_lines(ls: Seq<Seq<char>>) -> Seq<FindingView>
    decreases ls.len(),
{
    if ls.len() == 0 {
        Seq::empty()
    } else {
        let r = go_lines(ls.drop_last());
        let l = trim(ls.last());
        match strip_prefix(l, "module "@) {
            Some(m) => r.push(confirmed("Module"@, trim(m), "go.mod"@)),
            None => match strip_prefix(l, "go "@) {
                Some(v) => r.push(confirmed("Go version"@, trim(v), "go.mod"@)),
                None => r,
            },
        }
    }
}

/// `go.mod`: language, module and Go version.
pub open spec fn go_mod_view(text: Seq<char>) -> Seq<FindingView> {
    seq![confirmed("Language"@, "Go"@, "go.mod"@)] + go_lines(lines(text))
}

/// The findings of `go.mod`, given its text when it could be read.
pub fn go_mod(text: Option<&str>) -> (r: Vec<Finding>)
    ensures
        findings_view(r@) == match text {
            Some(t) => go_mod_view(t@),
            None => Seq::<FindingView>::empty(),
        },
{
    let mut out: Vec<Finding> = Vec::new();
    let t = match text {
        None => {
            assert(findings_view(out@) =~= Seq::<FindingView>::empty());
            return out;
        },
        Some(t) => t,
    };
    let src = "go.mod";
    out.push(fact("Language", "Go", src));
    let v = chars_of(t);
    let ls = lines_vec(&v);
    let ghost lv = lines(t@);
    assert(vv(ls@) =~= lv);
    let module = chars_of("module ");
    let go = chars_of("go ");
    let ghost head = findings_view(out@);
    let mut i: usize = 0;
    assert(lv.take(0) =~= Seq::<Seq<char>>::empty());
    while i < ls.len()
        invariant
            i <= ls.len(),
            vv(ls@) == lv,
            module@ == "module "@,
            go@ == "go "@,
            src@ == "go.mod"@,
            findings_view(out@) == head + go_lines(lv.take(i as int)),
        decreases ls.len() - i,
    {
        assert(lv.take(i + 1).drop_last() =~= lv.take(i as int));
        assert(lv.take(i + 1).last() == ls@[i as int]@);
        let l = trim_vec(&ls[i]);
        assert(l@ == trim(lv.take(i + 1).last()));
        if vec_starts_with(&l, &module) {
            let rest = crate::text::slice_vec(&l, module.len(), l.len());
            assert(rest@ =~= strip_prefix(l@, "module "@).unwrap());
            assert(strip_prefix(l@, "module "@) == Some(rest@));
            let m = string_of(&trim_vec(&rest));
            assert(m@ == trim(rest@));
            let f = fact("Module", m.as_str(), src);
            let ghost before = out@;
            out.push(f);
            assert(findings_view(out@) =~= findings_view(before).push(finding_view(f)));
            assert(finding_view(f) == confirmed("Module"@, trim(rest@), "go.mod"@));
            assert(go_lines(lv.take(i + 1)) == go_lines(lv.take(i as int)).push(finding_view(f)));
        } else if vec_starts_with(&l, &go) {
            let rest = crate::text::slice_vec(&l, go.len(), l.len());
            assert(rest@ =~= strip_prefix(l@, "go "@).unwrap());
            assert(strip_prefix(l@, "go "@) == Some(rest@));
            let m = string_of(&trim_vec(&rest));
            assert(m@ == trim(rest@));
            let f = fact("Go version", m.as_str(), src);
            let ghost before = out@;
            out.push(f);
            assert(findings_view(out@) =~= findings_view(before).push(finding_view(f)));
            assert(strip_prefix(l@, "module "@) is None);
            assert(finding_view(f) == confirmed("Go version"@, trim(rest@), "go.mod"@));
            assert(go_lines(lv.take(i + 1)) == go_lines(lv.take(i as int)).push(finding_view(f)));
        } else {
            assert(strip_prefix(l@, "module "@) is None);
            assert(strip_prefix(l@, "go "@) is None);
            assert(go_lines(lv.take(i + 1)) == go_lines(lv.take(i as int)));
        }
        i = i + 1;
    }
    assert(lv.take(ls.len() as int) =~= lv);
    out
}

/// Characters of a Python requirement's name.
pub open spec fn dep_char(c: char) -> bool {
    is_alnum(c) || c == '-' || c == '_' || c == '.'
}

/// The name at the start of a requirement (`fastapi>=0.100` → `fastapi`).
pub open spec fn requirement_name(s: Seq<char>) -> Seq<char>
    decreases s.len(),
{
    if s.len() == 0 || !dep_char(s[0]) {
        Seq::empty()
    } else {
        seq![s[0]] + requirement_name(s.drop_first())
    }
}

/// The non-empty requirement names, in order.
pub open spec fn requirement_names(specs: Seq<Seq<char>>) -> Seq<Seq<char>>
    decreases specs.len(),
{
    if specs.len() == 0 {
        Seq::empty()
    } else {
        let r = requirement_names(specs.drop_last());
        let n = requirement_name(specs.last());
        if n.len() == 0 {
            r
        } else {
            r.push(n)
        }
    }
}

/// `pyproject.toml` (parsed): language, package and dependencies.
pub open spec fn pyproject_view(doc: Node) -> Seq<FindingView> {
    let src = "pyproject.toml"@;
    let project = get(Some(doc), "project"@);
    let package = match text_of(get(project, "name"@)) {
        Some(n) => seq![confirmed("Package"@, n, src)],
        None => Seq::empty(),
    };
    let deps = match array_texts(get(project, "dependencies"@)) {
        Some(specs) => requirement_names(specs),
        None => Seq::empty(),
    };
    seq![confirmed("Language"@, "Python"@, src)] + package + dependency_view(deps, src)
}

fn requirement_name_of(s: &String) -> (r: String)
    ensures
        r@ == requirement_name(s@),
{
    let v = chars_of(s.as_str());
    let mut out = String::new();
    let mut i: usize = 0;
    assert(v@.subrange(0, v@.len() as int) =~= v@);
    while i < v.len() && (char_is_alnum(v[i]) || v[i] == '-' || v[i] == '_' || v[i] == '.')
        invariant
            i <= v.len(),
            v@ == s@,
            out@ + requirement_name(v@.subrange(i as int, v@.len() as int)) == requirement_name(s@),
        decreases v.len() - i,
    {
        assert(v@.subrange(i as int, v@.len() as int).drop_first() =~= v@.subrange(i + 1, v@.len() as int));
        assert(v@.subrange(i as int, v@.len() as int)[0] == v@[i as int]);
        let ghost before = out@;
        push_char(&mut out, v[i]);
        assert(out@ + requirement_name(v@.subrange(i + 1, v@.len() as int)) =~= before + (seq![v@[i as int]]
            + requirement_name(v@.subrange(i + 1, v@.len() as int))));
        i = i + 1;
    }
    proof {
        if i < v.len() {
            assert(v@.subrange(i as int, v@.len() as int)[0] == v@[i as int]);
        }
        assert(requirement_name(v@.subrange(i as int, v@.len() as int)) =~= Seq::<char>::empty());
        assert(out@ + Seq::<char>::empty() =~= out@);
    }
    out
}

/// The findings of a parsed `pyproject.toml`; see `pyproject_view`.
pub fn pyproject_findings(doc: &Node) -> (r: Vec<Finding>)
    ensures
        findings_view(r@) == pyproject_view(*doc),
{
    let src = "pyproject.toml";
    let project = get_value(Some(doc), "project");
    let mut out: Vec<Finding> = Vec::new();
    out.push(fact("Language", "Python", src));
    let mut package_part: Vec<Finding> = Vec::new();
    if let Some(name) = text_value(get_value(project, "name")) {
        package_part.push(fact("Package", name, src));
    }
    let mut deps: Vec<String> = Vec::new();
    match array_strings(get_value(project, "dependencies")) {
        Some(specs) => {
            let ghost sp = sv(specs@);
            let mut i: usize = 0;
            assert(sp.take(0) =~= Seq::<Seq<char>>::empty());
            while i < specs.len()
                invariant
                    i <= specs.len(),
                    sp == sv(specs@),
                    sv(deps@) == requirement_names(sp.take(i as int)),
                decreases specs.len() - i,
            {
                assert(sp.take(i + 1).drop_last() =~= sp.take(i as int));
                assert(sp.take(i + 1).last() == specs@[i as int]@);
                let n = requirement_name_of(&specs[i]);
                if chars_of(n.as_str()).len() > 0 {
                    let ghost before = deps@;
                    deps.push(n);
                    assert(sv(deps@) =~= sv(before).push(n@));
                }
                i = i + 1;
            }
            assert(sp.take(specs.len() as int) =~= sp);
        },
        None => {
            assert(sv(deps@) =~= Seq::<Seq<char>>::empty());
        },
    }
    let dep_part = dependency_findings(&deps, src);
    push_all(&mut out, package_part);
    push_all(&mut out, dep_part);
    out
}

/// The findings of `pyproject.toml`, given its text when it could be read.
pub fn pyproject(text: Option<&str>) -> (r: Vec<Finding>)
    ensures
        findings_view(r@) == match text {
            Some(t) => match toml_table_of(t@) {
                Some(doc) => pyproject_view(doc),
                None => Seq::empty(),
            },
            None => Seq::<FindingView>::empty(),
        },
{
    let empty: Vec<Finding> = Vec::new();
    assert(findings_view(empty@) =~= Seq::<FindingView>::empty());
    match text {
        None => empty,
        Some(t) => match parse_toml_table(t) {
            Some(doc) => pyproject_findings(&doc),
            None => empty,
        },
    }
}

} // verus!
