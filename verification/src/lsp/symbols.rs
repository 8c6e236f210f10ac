//! Workspace symbols: every defined spec, as a whole-line location in its
//! spec file, filtered by a query and sorted by ID.
//!
//! The query matches case-insensitively: it is upper-cased (ASCII) and must
//! occur in the ID; an empty query matches everything.

use vstd::prelude::*;

use crate::checks::{flat, lemma_flat_all, lemma_flat_forall, lemma_flat_len_count, lemma_flat_len_sum, lemma_flat_take, sum_of};
use crate::lsp::references::uri_views;
use crate::lsp::{file_scheme, file_uri, line_span, whole_line, Span};
use crate::model::SpecFile;
use crate::order::{lemma_insert_by_at, lemma_sort_by, lex_lt, ordered_by, sort_by, str_lt};
use crate::paths::{file_name, path_file_name};
use crate::repo::LidRepo;
use crate::text::{ascii_upper, contains_seq, str_contains, to_ascii_upper};

verus! {

/// One workspace symbol: a spec ID defined at a whole line of a file.
#[derive(Debug, Clone)]
pub struct SymbolEntry {
    pub name: String,
    pub uri: String,
    pub range: Span,
    /// The file name of the spec file.
    pub container: Option<String>,
}

/// A symbol as plain values.
pub struct SymbolView {
    pub name: Seq<char>,
    pub uri: Seq<char>,
    pub range: Span,
    pub container: Option<Seq<char>>,
}

/// The symbol's plain values.
pub open spec fn symbol_view(s: SymbolEntry) -> SymbolView {
    SymbolView {
        name: s.name@,
        uri: s.uri@,
        range: s.range,
        container: match s.container {
            Some(c) => Some(c@),
            None => None,
        },
    }
}

/// The symbols' plain values.
pub open spec fn symbol_views(ss: Seq<SymbolEntry>) -> Seq<SymbolView> {
    ss.map_values(|s: SymbolEntry| symbol_view(s))
}

/// The sort key of a symbol: its name.
pub open spec fn name_key() -> spec_fn(SymbolView) -> Seq<char> {
    |s: SymbolView| s.name
}

/// An ID matches the upper-cased query `needle`.
pub open spec fn matches_needle(id: Seq<char>, needle: Seq<char>) -> bool {
    needle.len() == 0 || contains_seq(id, needle)
}

/// The symbols of one spec file whose URI is `uri`.
pub open spec fn file_symbols(file: SpecFile, uri: Option<Seq<char>>, needle: Seq<char>) -> Seq<SymbolView> {
    match uri {
        None => Seq::empty(),
        Some(u) => flat(Seq::new(
            file.specs@.len(),
            |j: int|
                if matches_needle(file.specs@[j].id@, needle) {
                    seq![
                        SymbolView {
                            name: file.specs@[j].id@,
                            uri: u,
                            range: line_span(file.specs@[j].line as int),
                            container: file_name(file.path@),
                        },
                    ]
                } else {
                    Seq::empty()
                },
        )),
    }
}

/// The workspace symbols for `query`, given each spec file's URI.
pub open spec fn symbols_spec(files: Seq<SpecFile>, uris: Seq<Option<Seq<char>>>, query: Seq<char>) -> Seq<SymbolView> {
    sort_by(
        flat(Seq::new(files.len(), |i: int| file_symbols(files[i], uris[i], ascii_upper(query)))),
        name_key(),
    )
}

/// Workspace symbols come sorted by spec ID, and sorting neither drops
/// nor repeats a symbol.
pub proof fn law_symbols_sorted_by_id(files: Seq<SpecFile>, uris: Seq<Option<Seq<char>>>, query: Seq<char>)
    ensures
        ordered_by(symbols_spec(files, uris, query), name_key()),
        symbols_spec(files, uris, query).to_multiset() == flat(
            Seq::new(files.len(), |i: int| file_symbols(files[i], uris[i], ascii_upper(query))),
        ).to_multiset(),
{
    lemma_sort_by(flat(Seq::new(files.len(), |i: int| file_symbols(files[i], uris[i], ascii_upper(query)))), name_key());
}

/// How many symbols one spec file offers: its spec lines whose ID
/// matches, when it has a URI.
pub open spec fn file_symbol_count(entry: (SpecFile, Option<Seq<char>>), needle: Seq<char>) -> nat {
    if entry.1 is Some {
        entry.0.specs@.filter(|l: crate::model::SpecLine| matches_needle(l.id@, needle)).len()
    } else {
        0
    }
}

/// Workspace symbols are exactly the matching spec IDs: each one's name
/// contains the upper-cased query (or the query is empty), and there is
/// one symbol per matching spec line of each file that has a URI.
pub proof fn law_symbols_are_matching_ids(files: Seq<SpecFile>, uris: Seq<Option<Seq<char>>>, query: Seq<char>)
    requires
        uris.len() == files.len(),
    ensures
        symbols_spec(files, uris, query).len() == sum_of(
            Seq::new(files.len(), |i: int| (files[i], uris[i])),
            |e: (SpecFile, Option<Seq<char>>)| file_symbol_count(e, ascii_upper(query)),
        ),
        forall|k: int|
            0 <= k < symbols_spec(files, uris, query).len() ==> matches_needle(
                (#[trigger] symbols_spec(files, uris, query)[k]).name,
                ascii_upper(query),
            ),
{
    broadcast use vstd::seq_lib::group_to_multiset_ensures;

    let needle = ascii_upper(query);
    let bs = Seq::new(files.len(), |i: int| file_symbols(files[i], uris[i], needle));
    let pairs = Seq::new(files.len(), |i: int| (files[i], uris[i]));
    let p = |v: SymbolView| matches_needle(v.name, needle);
    assert forall|i: int| 0 <= i < pairs.len() implies (#[trigger] bs[i]).len() == file_symbol_count(pairs[i], needle) && (
    forall|k: int| 0 <= k < bs[i].len() ==> p(#[trigger] bs[i][k])) by {
        let file = files[i];
        match uris[i] {
            None => {},
            Some(u) => {
                let inner = Seq::new(
                    file.specs@.len(),
                    |j: int|
                        if matches_needle(file.specs@[j].id@, needle) {
                            seq![
                                SymbolView {
                                    name: file.specs@[j].id@,
                                    uri: u,
                                    range: line_span(file.specs@[j].line as int),
                                    container: file_name(file.path@),
                                },
                            ]
                        } else {
                            Seq::empty()
                        },
                );
                lemma_flat_len_count(file.specs@, inner, |l: crate::model::SpecLine| matches_needle(l.id@, needle));
                assert forall|a: int, b: int| 0 <= a < inner.len() && 0 <= b < inner[a].len() implies p(#[trigger] inner[a][b]) by {}
                lemma_flat_forall(inner, p);
            },
        }
    }
    lemma_flat_len_sum(pairs, bs, |e: (SpecFile, Option<Seq<char>>)| file_symbol_count(e, needle));
    assert forall|i: int, k: int| 0 <= i < bs.len() && 0 <= k < bs[i].len() implies p(#[trigger] bs[i][k]) by {
        assert(forall|k: int| 0 <= k < bs[i].len() ==> p(#[trigger] bs[i][k]));
    }
    lemma_flat_forall(bs, p);
    lemma_sort_by(flat(bs), name_key());
    let out = symbols_spec(files, uris, query);
    assert(out.len() == out.to_multiset().len());
    assert(flat(bs).len() == flat(bs).to_multiset().len());
    assert forall|k: int| 0 <= k < out.len() implies matches_needle((#[trigger] out[k]).name, needle) by {
        let e = out[k];
        assert(out.contains(e));
        assert(out.to_multiset().count(e) > 0);
        assert(flat(bs).to_multiset().count(e) > 0);
        assert(flat(bs).contains(e));
        let j = choose|j: int| 0 <= j < flat(bs).len() && flat(bs)[j] == e;
        assert(p(flat(bs)[j]));
    }
}

impl SymbolEntry {
    /// A copy of this symbol.
    pub fn clone_symbol(&self) -> (r: SymbolEntry)
        ensures
            symbol_view(r) == symbol_view(*self),
    {
        SymbolEntry {
            name: self.name.clone(),
            uri: self.uri.clone(),
            range: self.range,
            container: match &self.container {
                Some(c) => Some(c.clone()),
                None => None,
            },
        }
    }
}

/// Sort symbols by name, stably.
pub fn sort_symbols(es: Vec<SymbolEntry>) -> (r: Vec<SymbolEntry>)
    ensures
        symbol_views(r@) == sort_by(symbol_views(es@), name_key()),
{
    let ghost src = symbol_views(es@);
    let mut out: Vec<SymbolEntry> = Vec::new();
    let mut k: usize = 0;
    while k < es.len()
        invariant
            0 <= k <= es@.len(),
            src == symbol_views(es@),
            symbol_views(out@) == sort_by(src.take(k as int), name_key()),
        decreases es@.len() - k,
    {
        let x = es[k].clone_symbol();
        let mut p: usize = 0;
        while p < out.len() && !str_lt(x.name.as_str(), out[p].name.as_str())
            invariant
                0 <= p <= out@.len(),
                forall|q: int| 0 <= q < p ==> !lex_lt(x.name@, (#[trigger] out@[q]).name@),
            decreases out@.len() - p,
        {
            p = p + 1;
        }
        let ghost before = symbol_views(out@);
        proof {
            assert forall|q: int| 0 <= q < p implies !lex_lt(
                (name_key())(symbol_view(x)),
                (name_key())(#[trigger] before[q]),
            ) by {
                assert(before[q] == symbol_view(out@[q]));
            }
            if p < out@.len() {
                assert(before[p as int] == symbol_view(out@[p as int]));
            }
            lemma_insert_by_at(before, symbol_view(x), name_key(), p as int);
            assert(src.take(k + 1).drop_last() =~= src.take(k as int));
        }
        out.insert(p, x);
        assert(symbol_views(out@) =~= before.insert(p as int, src[k as int]));
        k = k + 1;
    }
    assert(src.take(k as int) =~= src);
    out
}

fn file_symbols_exec(file: &SpecFile, uri: &Option<String>, needle: &str) -> (r: Vec<SymbolEntry>)
    ensures
        symbol_views(r@) == file_symbols(
            *file,
            match uri {
                Some(u) => Some(u@),
                None => None,
            },
            needle@,
        ),
{
    let mut out: Vec<SymbolEntry> = Vec::new();
    let u = match uri {
        Some(u) => u,
        None => return out,
    };
    let container = path_file_name(file.path.as_str());
    let ghost blocks = Seq::new(
        file.specs@.len(),
        |j: int|
            if matches_needle(file.specs@[j].id@, needle@) {
                seq![
                    SymbolView {
                        name: file.specs@[j].id@,
                        uri: u@,
                        range: line_span(file.specs@[j].line as int),
                        container: file_name(file.path@),
                    },
                ]
            } else {
                Seq::empty()
            },
    );
    let empty = needle.is_empty();
    let mut j: usize = 0;
    while j < file.specs.len()
        invariant
            0 <= j <= file.specs@.len(),
            empty == (needle@.len() == 0),
            container matches Some(c) ==> file_name(file.path@) == Some(c@),
            container is None ==> file_name(file.path@) is None,
            blocks == Seq::new(
                file.specs@.len(),
                |j: int|
                    if matches_needle(file.specs@[j].id@, needle@) {
                        seq![
                            SymbolView {
                                name: file.specs@[j].id@,
                                uri: u@,
                                range: line_span(file.specs@[j].line as int),
                                container: file_name(file.path@),
                            },
                        ]
                    } else {
                        Seq::empty()
                    },
            ),
            symbol_views(out@) == flat(blocks.take(j as int)),
        decreases file.specs@.len() - j,
    {
        proof {
            lemma_flat_take(blocks, j as int);
        }
        let line = &file.specs[j];
        let ghost before = symbol_views(out@);
        if empty || str_contains(line.id.as_str(), needle) {
            let s = SymbolEntry {
                name: line.id.as_str().to_owned(),
                uri: u.clone(),
                range: whole_line(line.line),
                container: match &container {
                    Some(c) => Some(c.clone()),
                    None => None,
                },
            };
            out.push(s);
            assert(symbol_views(out@) =~= before.push(symbol_view(s)));
        }
        assert(before + blocks[j as int] =~= symbol_views(out@));
        j = j + 1;
    }
    proof {
        lemma_flat_all(blocks);
    }
    out
}

/// The workspace symbols for `query`, given each spec file's URI
/// (`uris[i]` for `repo.specs[i]`; files without one are left out).
pub fn symbols_from(repo: &LidRepo, query: &str, uris: &Vec<Option<String>>) -> (r: Vec<SymbolEntry>)
    requires
        uris@.len() == repo.specs@.len(),
    ensures
        symbol_views(r@) == symbols_spec(repo.specs@, uri_views(uris@), query@),
{
    let needle = to_ascii_upper(query);
    let ghost w = uri_views(uris@);
    let ghost blocks = Seq::new(repo.specs@.len(), |i: int| file_symbols(repo.specs@[i], w[i], ascii_upper(query@)));
    let mut all: Vec<SymbolEntry> = Vec::new();
    let mut i: usize = 0;
    while i < repo.specs.len()
        invariant
            0 <= i <= repo.specs@.len(),
            uris@.len() == repo.specs@.len(),
            w == uri_views(uris@),
            needle@ == ascii_upper(query@),
            blocks == Seq::new(repo.specs@.len(), |i: int| file_symbols(repo.specs@[i], w[i], ascii_upper(query@))),
            symbol_views(all@) == flat(blocks.take(i as int)),
        decreases repo.specs@.len() - i,
    {
        proof {
            lemma_flat_take(blocks, i as int);
        }
        let mut more = file_symbols_exec(&repo.specs[i], &uris[i], needle.as_str());
        let ghost before = symbol_views(all@);
        all.append(&mut more);
        assert(symbol_views(all@) =~= before + blocks[i as int]);
        i = i + 1;
    }
    proof {
        lemma_flat_all(blocks);
    }
    sort_symbols(all)
}

/// The workspace symbols for `query`: spec IDs containing it
/// (case-insensitively), sorted by ID, in files that have a URI.
pub fn list_symbols(repo: &LidRepo, query: &str) -> (r: Vec<SymbolEntry>)
    ensures
        exists|u: Seq<Option<Seq<char>>>|
            #![trigger symbols_spec(repo.specs@, u, query@)]
            u.len() == repo.specs@.len()
                && (forall|q: int| 0 <= q < u.len() && u[q] is Some ==> file_scheme(#[trigger] u[q].unwrap()))
                && symbol_views(r@) == symbols_spec(repo.specs@, u, query@),
{
    let mut uris: Vec<Option<String>> = Vec::new();
    let mut i: usize = 0;
    while i < repo.specs.len()
        invariant
            0 <= i <= repo.specs@.len(),
            uris@.len() == i,
            forall|q: int| 0 <= q < i ==> (#[trigger] uris@[q] matches Some(x) ==> file_scheme(x@)),
        decreases repo.specs@.len() - i,
    {
        let u = file_uri(repo.specs[i].path.as_str());
        let ghost before = uris@;
        uris.push(u);
        assert(forall|q: int| 0 <= q < i ==> uris@[q] == before[q]);
        i = i + 1;
    }
    let r = symbols_from(repo, query, &uris);
    let ghost w = uri_views(uris@);
    assert(w.len() == repo.specs@.len());
    assert forall|q: int| 0 <= q < w.len() && w[q] is Some implies file_scheme(#[trigger] w[q].unwrap()) by {
        assert(uris@[q] is Some);
    }
    r
}

} // verus!
