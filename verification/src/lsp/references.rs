//! Find references: every known place of the spec ID under the cursor —
//! its definitions (when asked for) and every citation — as whole-line
//! locations.

use vstd::prelude::*;

use crate::checks::{flat, lemma_flat_all, lemma_flat_take};
use crate::ids::SpecId;
use crate::lsp::{file_scheme, file_uri, id_at_position, line_span, spec_id_at_cursor, whole_line, FileLocation, Pos, Span};
use crate::model::{SpecCitation, SpecFile};
use crate::repo::LidRepo;

verus! {

/// The `(path, 1-based line)` of every definition of `id`, file by file.
pub open spec fn definition_sites(files: Seq<SpecFile>, id: Seq<char>) -> Seq<(Seq<char>, usize)> {
    flat(Seq::new(
        files.len(),
        |i: int|
            flat(Seq::new(
                files[i].specs@.len(),
                |j: int|
                    if files[i].specs@[j].id@ == id {
                        seq![(files[i].path@, files[i].specs@[j].line)]
                    } else {
                        Seq::empty()
                    },
            )),
    ))
}

/// The `(path, 1-based line)` of every citation of `id`, in order.
pub open spec fn citation_sites(cites: Seq<SpecCitation>, id: Seq<char>) -> Seq<(Seq<char>, usize)> {
    flat(Seq::new(
        cites.len(),
        |k: int|
            if cites[k].id@ == id {
                seq![(cites[k].file@, cites[k].line)]
            } else {
                Seq::empty()
            },
    ))
}

/// Every place of `id`: definitions first when `include_declaration`,
/// then citations.
pub open spec fn reference_sites(repo: LidRepo, id: Seq<char>, include_declaration: bool) -> Seq<(Seq<char>, usize)> {
    (if include_declaration {
        definition_sites(repo.specs@, id)
    } else {
        Seq::empty()
    }) + citation_sites(repo.citations@, id)
}

/// The locations of `sites` whose file has a URI (`uris[k]` for `sites[k]`).
pub open spec fn located(sites: Seq<(Seq<char>, usize)>, uris: Seq<Option<Seq<char>>>) -> Seq<(Seq<char>, Span)> {
    flat(Seq::new(
        sites.len(),
        |k: int|
            match uris[k] {
                Some(u) => seq![(u, line_span(sites[k].1 as int))],
                None => Seq::empty(),
            },
    ))
}

/// A location as plain values.
pub open spec fn loc_view(l: FileLocation) -> (Seq<char>, Span) {
    (l.uri@, l.range)
}

/// The locations as plain values.
pub open spec fn loc_views(ls: Seq<FileLocation>) -> Seq<(Seq<char>, Span)> {
    ls.map_values(|l: FileLocation| loc_view(l))
}

/// Plain views of optional URIs.
pub open spec fn uri_views(us: Seq<Option<String>>) -> Seq<Option<Seq<char>>> {
    us.map_values(
        |u: Option<String>|
            match u {
                Some(s) => Some(s@),
                None => None,
            },
    )
}

fn push_site(out: &mut Vec<(String, usize)>, path: &String, line: usize)
    ensures
        final(out)@.len() == old(out)@.len() + 1,
        forall|k: int| 0 <= k < old(out)@.len() ==> final(out)@[k] == old(out)@[k],
        final(out)@[old(out)@.len() as int].0@ == path@,
        final(out)@[old(out)@.len() as int].1 == line,
{
    out.push((path.clone(), line));
}

/// Site views.
pub open spec fn site_views(s: Seq<(String, usize)>) -> Seq<(Seq<char>, usize)> {
    s.map_values(|t: (String, usize)| (t.0@, t.1))
}

/// Every place of `id` in the repository, as `(path, 1-based line)`.
pub fn reference_sites_of(repo: &LidRepo, id: &SpecId, include_declaration: bool) -> (r: Vec<(String, usize)>)
    ensures
        site_views(r@) == reference_sites(*repo, id@, include_declaration),
{
    let mut out: Vec<(String, usize)> = Vec::new();
    if include_declaration {
        let files = &repo.specs;
        let ghost blocks = Seq::new(
            files@.len(),
            |i: int|
                flat(Seq::new(
                    files@[i].specs@.len(),
                    |j: int|
                        if files@[i].specs@[j].id@ == id@ {
                            seq![(files@[i].path@, files@[i].specs@[j].line)]
                        } else {
                            Seq::empty()
                        },
                )),
        );
        let mut i: usize = 0;
        while i < files.len()
            invariant
                0 <= i <= files@.len(),
                files == &repo.specs,
                blocks == Seq::new(
                    files@.len(),
                    |i: int|
                        flat(Seq::new(
                            files@[i].specs@.len(),
                            |j: int|
                                if files@[i].specs@[j].id@ == id@ {
                                    seq![(files@[i].path@, files@[i].specs@[j].line)]
                                } else {
                                    Seq::empty()
                                },
                        )),
                ),
                site_views(out@) == flat(blocks.take(i as int)),
            decreases files@.len() - i,
        {
            proof {
                lemma_flat_take(blocks, i as int);
            }
            let f = &files[i];
            let ghost inner = Seq::new(
                f.specs@.len(),
                |j: int|
                    if f.specs@[j].id@ == id@ {
                        seq![(f.path@, f.specs@[j].line)]
                    } else {
                        Seq::<(Seq<char>, usize)>::empty()
                    },
            );
            assert(flat(inner) == blocks[i as int]);
            let ghost head = site_views(out@);
            let mut j: usize = 0;
            while j < f.specs.len()
                invariant
                    0 <= j <= f.specs@.len(),
                    inner == Seq::new(
                        f.specs@.len(),
                        |j: int|
                            if f.specs@[j].id@ == id@ {
                                seq![(f.path@, f.specs@[j].line)]
                            } else {
                                Seq::<(Seq<char>, usize)>::empty()
                            },
                    ),
                    site_views(out@) == head + flat(inner.take(j as int)),
                decreases f.specs@.len() - j,
            {
                proof {
                    lemma_flat_take(inner, j as int);
                }
                let ghost before = out@;
                if f.specs[j].id.same(id) {
                    push_site(&mut out, &f.path, f.specs[j].line);
                    assert(site_views(out@) =~= site_views(before).push((f.path@, f.specs@[j as int].line)));
                }
                assert(head + flat(inner.take(j as int)) + inner[j as int] =~= head + flat(inner.take(j + 1)));
                j = j + 1;
            }
            proof {
                lemma_flat_all(inner);
            }
            i = i + 1;
        }
        proof {
            lemma_flat_all(blocks);
        }
    }
    let ghost head = site_views(out@);
    assert(head == (if include_declaration {
        definition_sites(repo.specs@, id@)
    } else {
        Seq::empty()
    }));
    let cites = &repo.citations;
    let ghost cb = Seq::new(
        cites@.len(),
        |k: int|
            if cites@[k].id@ == id@ {
                seq![(cites@[k].file@, cites@[k].line)]
            } else {
                Seq::<(Seq<char>, usize)>::empty()
            },
    );
    let mut k: usize = 0;
    while k < cites.len()
        invariant
            0 <= k <= cites@.len(),
            cb == Seq::new(
                cites@.len(),
                |k: int|
                    if cites@[k].id@ == id@ {
                        seq![(cites@[k].file@, cites@[k].line)]
                    } else {
                        Seq::<(Seq<char>, usize)>::empty()
                    },
            ),
            site_views(out@) == head + flat(cb.take(k as int)),
        decreases cites@.len() - k,
    {
        proof {
            lemma_flat_take(cb, k as int);
        }
        let ghost before = out@;
        if cites[k].id.same(id) {
            push_site(&mut out, &cites[k].file, cites[k].line);
            assert(site_views(out@) =~= site_views(before).push((cites@[k as int].file@, cites@[k as int].line)));
        }
        assert(head + flat(cb.take(k as int)) + cb[k as int] =~= head + flat(cb.take(k + 1)));
        k = k + 1;
    }
    proof {
        lemma_flat_all(cb);
    }
    out
}

/// Whole-line locations of `sites`, keeping those whose URI is known
/// (`uris[k]` belongs to `sites[k]`).
pub fn locations_for(sites: &Vec<(String, usize)>, uris: &Vec<Option<String>>) -> (r: Vec<FileLocation>)
    requires
        uris@.len() == sites@.len(),
    ensures
        loc_views(r@) == located(site_views(sites@), uri_views(uris@)),
{
    let ghost blocks = Seq::new(
        site_views(sites@).len(),
        |k: int|
            match uri_views(uris@)[k] {
                Some(u) => seq![(u, line_span(site_views(sites@)[k].1 as int))],
                None => Seq::empty(),
            },
    );
    let mut out: Vec<FileLocation> = Vec::new();
    let mut k: usize = 0;
    while k < sites.len()
        invariant
            0 <= k <= sites@.len(),
            uris@.len() == sites@.len(),
            blocks == Seq::new(
                site_views(sites@).len(),
                |k: int|
                    match uri_views(uris@)[k] {
                        Some(u) => seq![(u, line_span(site_views(sites@)[k].1 as int))],
                        None => Seq::empty(),
                    },
            ),
            loc_views(out@) == flat(blocks.take(k as int)),
        decreases sites@.len() - k,
    {
        proof {
            lemma_flat_take(blocks, k as int);
        }
        let ghost before = out@;
        match &uris[k] {
            Some(u) => {
                out.push(FileLocation { uri: u.clone(), range: whole_line(sites[k].1) });
                assert(loc_views(out@) =~= loc_views(before) + blocks[k as int]);
            },
            None => {
                assert(loc_views(out@) =~= loc_views(before) + blocks[k as int]);
            },
        }
        k = k + 1;
    }
    proof {
        lemma_flat_all(blocks);
    }
    out
}

/// References of the spec ID under the cursor: `None` when the cursor is
/// on no spec ID; otherwise its definitions (when `include_declaration`)
/// and citations, each whole line, leaving out files without a URI.
pub fn references_at_position(repo: &LidRepo, text: &str, position: Pos, include_declaration: bool) -> (r: Option<Vec<FileLocation>>)
    ensures
        r is None <==> id_at_position(text@, position) is None,
        r matches Some(v) ==> exists|u: Seq<Option<Seq<char>>>|
            #![trigger located(reference_sites(*repo, id_at_position(text@, position).unwrap(), include_declaration), u)]
            u.len() == reference_sites(*repo, id_at_position(text@, position).unwrap(), include_declaration).len()
                && (forall|q: int| 0 <= q < u.len() && u[q] is Some ==> file_scheme(#[trigger] u[q].unwrap()))
                && loc_views(v@) == located(
                reference_sites(*repo, id_at_position(text@, position).unwrap(), include_declaration),
                u,
            ),
{
    let id = match spec_id_at_cursor(text, position) {
        Some(id) => id,
        None => return None,
    };
    let sites = reference_sites_of(repo, &id, include_declaration);
    let mut uris: Vec<Option<String>> = Vec::new();
    let mut k: usize = 0;
    while k < sites.len()
        invariant
            0 <= k <= sites@.len(),
            uris@.len() == k,
            forall|q: int| 0 <= q < k ==> (#[trigger] uris@[q] matches Some(x) ==> file_scheme(x@)),
        decreases sites@.len() - k,
    {
        let u = file_uri(sites[k].0.as_str());
        let ghost before = uris@;
        uris.push(u);
        assert(forall|q: int| 0 <= q < k ==> uris@[q] == before[q]);
        k = k + 1;
    }
    let v = locations_for(&sites, &uris);
    proof {
        let w = uri_views(uris@);
        let rs = reference_sites(*repo, id_at_position(text@, position).unwrap(), include_declaration);
        assert(rs == site_views(sites@));
        assert(w.len() == rs.len());
        assert(loc_views(v@) == located(rs, w));
        assert forall|q: int| 0 <= q < w.len() && w[q] is Some implies file_scheme(#[trigger] w[q].unwrap()) by {
            assert(uris@[q] is Some);
        }
    }
    Some(v)
}

} // verus!
