//! Arrow detail docs and LLDs, read from the CommonMark event stream that
//! pulldown-cmark produces.
//!
//! * Arrow docs: bullets under `## References`, grouped by their
//!   `### {Kind}` subheading (`HLD`, `LLD`, `EARS`, `Tests`, `Code`);
//!   other subheading names are recorded as unrecognised. Bullet text is
//!   gathered from plain text and inline code (kept in backticks), so both
//!   `` `path.md` `` and `path.md §Section` survive for path resolution.
//! * LLDs: body rows of the table under `## Decisions & Alternatives`
//!   (or `## Decisions and Alternatives`), with GFM tables enabled.

use vstd::prelude::*;

use pulldown_cmark::Event::{Code, End, HardBreak, SoftBreak, Start, Text};
use pulldown_cmark::{Options, Parser, Tag, TagEnd};

use crate::model::{known_reference_sections, ArrowDoc, ArrowReferences, DecisionRow, LldDoc};
use crate::text::{contains_seq, push_char, str_contains, str_eq, trim, trim_str};

verus! {

/// The parts of a CommonMark event stream these parsers read.
#[derive(Debug)]
pub enum MdEvent {
    StartHeading(u8),
    EndHeading(u8),
    StartItem,
    EndItem,
    StartTable,
    EndTable,
    StartHead,
    EndHead,
    StartRow,
    EndRow,
    StartCell,
    EndCell,
    Text(String),
    Code(String),
    Break,
    Other,
}

/// An event as plain values.
pub enum MdView {
    StartHeading(u8),
    EndHeading(u8),
    StartItem,
    EndItem,
    StartTable,
    EndTable,
    StartHead,
    EndHead,
    StartRow,
    EndRow,
    StartCell,
    EndCell,
    Text(Seq<char>),
    Code(Seq<char>),
    Break,
    Other,
}

/// The event's plain values.
pub open spec fn md_view(e: MdEvent) -> MdView {
    match e {
        MdEvent::StartHeading(l) => MdView::StartHeading(l),
        MdEvent::EndHeading(l) => MdView::EndHeading(l),
        MdEvent::StartItem => MdView::StartItem,
        MdEvent::EndItem => MdView::EndItem,
        MdEvent::StartTable => MdView::StartTable,
        MdEvent::EndTable => MdView::EndTable,
        MdEvent::StartHead => MdView::StartHead,
        MdEvent::EndHead => MdView::EndHead,
        MdEvent::StartRow => MdView::StartRow,
        MdEvent::EndRow => MdView::EndRow,
        MdEvent::StartCell => MdView::StartCell,
        MdEvent::EndCell => MdView::EndCell,
        MdEvent::Text(s) => MdView::Text(s@),
        MdEvent::Code(s) => MdView::Code(s@),
        MdEvent::Break => MdView::Break,
        MdEvent::Other => MdView::Other,
    }
}

/// The events' plain values.
pub open spec fn md_views(es: Seq<MdEvent>) -> Seq<MdView> {
    es.map_values(|e: MdEvent| md_view(e))
}

/// The events of `pulldown_cmark::Parser::new(content)`.
pub uninterp spec fn cmark_events(content: Seq<char>) -> Seq<MdView>;

/// The events of `pulldown_cmark::Parser::new_ext(content, ENABLE_TABLES)`.
pub uninterp spec fn cmark_table_events(content: Seq<char>) -> Seq<MdView>;

/// `pulldown_cmark::Parser::new(content)`, each event carried over as an
/// `MdEvent` (heading level as its number, text and inline code as owned
/// strings, both line breaks as `Break`, everything else `Other`).
///
/// Claimed: the result is a function of `content` alone, named
/// `cmark_events`; nothing more is stated of CommonMark parsing.
#[verifier::external_body]
fn parse_events(content: &str) -> (r: Vec<MdEvent>)
    ensures
        md_views(r@) == cmark_events(content@),
{
    Parser::new(content).map(|e| match e {
        Start(Tag::Heading { level, .. }) => MdEvent::StartHeading(level as u8),
        End(TagEnd::Heading(level)) => MdEvent::EndHeading(level as u8),
        Start(Tag::Item) => MdEvent::StartItem,
        End(TagEnd::Item) => MdEvent::EndItem,
        Text(s) => MdEvent::Text(s.to_string()),
        Code(s) => MdEvent::Code(s.to_string()),
        SoftBreak | HardBreak => MdEvent::Break,
        _ => MdEvent::Other,
    }).collect()
}

/// `pulldown_cmark::Parser::new_ext(content, Options::ENABLE_TABLES)`,
/// each event carried over as an `MdEvent` (heading level as its number,
/// table parts by kind, text and inline code as owned strings, everything
/// else `Other`).
///
/// Claimed: the result is a function of `content` alone, named
/// `cmark_table_events`; nothing more is stated of CommonMark parsing.
#[verifier::external_body]
fn parse_table_events(content: &str) -> (r: Vec<MdEvent>)
    ensures
        md_views(r@) == cmark_table_events(content@),
{
    Parser::new_ext(content, Options::ENABLE_TABLES).map(|e| match e {
        Start(Tag::Heading { level, .. }) => MdEvent::StartHeading(level as u8),
        End(TagEnd::Heading(level)) => MdEvent::EndHeading(level as u8),
        Start(Tag::Table(_)) => MdEvent::StartTable,
        End(TagEnd::Table) => MdEvent::EndTable,
        Start(Tag::TableHead) => MdEvent::StartHead,
        End(TagEnd::TableHead) => MdEvent::EndHead,
        Start(Tag::TableRow) => MdEvent::StartRow,
        End(TagEnd::TableRow) => MdEvent::EndRow,
        Start(Tag::TableCell) => MdEvent::StartCell,
        End(TagEnd::TableCell) => MdEvent::EndCell,
        Text(s) => MdEvent::Text(s.to_string()),
        Code(s) => MdEvent::Code(s.to_string()),
        _ => MdEvent::Other,
    }).collect()
}

// ---------------------------------------------------------------- arrow docs

/// Reader state while walking an arrow doc's events.
pub struct ArrowScan {
    /// Bullets of `HLD`, `LLD`, `EARS`, `Tests`, `Code`, in that order.
    pub refs: Seq<Seq<Seq<char>>>,
    pub unrecognized: Seq<Seq<char>>,
    pub in_references: bool,
    pub h3_name: Seq<char>,
    pub collecting: bool,
    pub heading: Seq<char>,
    pub in_item: bool,
    pub item: Seq<char>,
}

/// Before the first event.
pub open spec fn arrow_init() -> ArrowScan {
    ArrowScan {
        refs: seq![Seq::empty(), Seq::empty(), Seq::empty(), Seq::empty(), Seq::empty()],
        unrecognized: Seq::empty(),
        in_references: false,
        h3_name: Seq::empty(),
        collecting: false,
        heading: Seq::empty(),
        in_item: false,
        item: Seq::empty(),
    }
}

/// Which bullet list a `### {Kind}` name feeds; -1 for none.
pub open spec fn section_index(name: Seq<char>) -> int {
    if name == "HLD"@ {
        0
    } else if name == "LLD"@ {
        1
    } else if name == "EARS"@ {
        2
    } else if name == "Tests"@ {
        3
    } else if name == "Code"@ {
        4
    } else {
        -1
    }
}

/// The state after one event.
pub open spec fn arrow_step(st: ArrowScan, e: MdView) -> ArrowScan {
    match e {
        MdView::StartHeading(_) => ArrowScan { collecting: true, heading: Seq::empty(), in_item: false, ..st },
        MdView::EndHeading(level) => {
            let text = trim(st.heading);
            if level == 2 {
                ArrowScan { collecting: false, in_references: text == "References"@, h3_name: Seq::empty(), ..st }
            } else if level == 3 && st.in_references {
                ArrowScan {
                    collecting: false,
                    unrecognized: if known_reference_sections().contains(text) {
                        st.unrecognized
                    } else {
                        st.unrecognized.push(text)
                    },
                    h3_name: text,
                    ..st
                }
            } else if level == 3 {
                ArrowScan { collecting: false, h3_name: Seq::empty(), ..st }
            } else {
                ArrowScan { collecting: false, ..st }
            }
        },
        MdView::Text(t) => if st.collecting {
            ArrowScan { heading: st.heading + t, ..st }
        } else if st.in_item {
            ArrowScan { item: st.item + t, ..st }
        } else {
            st
        },
        MdView::Code(t) => if st.collecting {
            ArrowScan { heading: st.heading + t, ..st }
        } else if st.in_item {
            ArrowScan { item: st.item.push('`') + t.push('`'), ..st }
        } else {
            st
        },
        MdView::StartItem => if st.in_references {
            ArrowScan { in_item: true, item: Seq::empty(), ..st }
        } else {
            st
        },
        MdView::EndItem => if st.in_item {
            let b = trim(st.item);
            let k = section_index(st.h3_name);
            ArrowScan {
                in_item: false,
                refs: if b.len() > 0 && k != -1 {
                    st.refs.update(k, st.refs[k].push(b))
                } else {
                    st.refs
                },
                ..st
            }
        } else {
            st
        },
        MdView::Break => if st.in_item {
            ArrowScan { item: st.item.push(' '), ..st }
        } else {
            st
        },
        _ => st,
    }
}

/// The state after the first `n` events.
pub open spec fn arrow_scan(es: Seq<MdView>, n: int) -> ArrowScan
    decreases n,
{
    if n <= 0 {
        arrow_init()
    } else {
        arrow_step(arrow_scan(es, n - 1), es[n - 1])
    }
}

/// `d` holds what reading `es` found, for a doc at `path`.
pub open spec fn arrow_doc_matches(d: ArrowDoc, es: Seq<MdView>, path: Seq<char>) -> bool {
    let st = arrow_scan(es, es.len() as int);
    &&& d.path@ == path
    &&& d.references.hld@.map_values(|s: String| s@) == st.refs[0]
    &&& d.references.lld@.map_values(|s: String| s@) == st.refs[1]
    &&& d.references.ears@.map_values(|s: String| s@) == st.refs[2]
    &&& d.references.tests@.map_values(|s: String| s@) == st.refs[3]
    &&& d.references.code@.map_values(|s: String| s@) == st.refs[4]
    &&& d.unrecognized_reference_sections@.map_values(|s: String| s@) == st.unrecognized
}

/// The text of an arrow-doc bullet's inline events: text as it is, inline
/// code between backticks, a line break as a space.
pub open spec fn item_text(es: Seq<MdView>) -> Seq<char>
    decreases es.len(),
{
    if es.len() == 0 {
        Seq::empty()
    } else {
        item_text(es.drop_last()) + match es.last() {
            MdView::Text(t) => t,
            MdView::Code(t) => seq!['`'] + t + seq!['`'],
            MdView::Break => seq![' '],
            _ => Seq::empty(),
        }
    }
}

/// Every event of `es` is text, inline code or a line break.
pub open spec fn all_item_inline(es: Seq<MdView>) -> bool {
    forall|q: int| 0 <= q < es.len() ==> (#[trigger] es[q]) is Text || es[q] is Code || es[q] is Break
}

proof fn lemma_item_collects(es: Seq<MdView>, i: int, n: int)
    requires
        0 <= i,
        0 <= n,
        i + 1 + n <= es.len(),
        arrow_scan(es, i).in_references,
        !arrow_scan(es, i).collecting,
        es[i] == MdView::StartItem,
        all_item_inline(es.subrange(i + 1, i + 1 + n)),
    ensures
        arrow_scan(es, i + 1 + n) == (ArrowScan {
            in_item: true,
            item: item_text(es.subrange(i + 1, i + 1 + n)),
            ..arrow_scan(es, i)
        }),
    decreases n,
{
    if n > 0 {
        let sub = es.subrange(i + 1, i + 1 + n);
        let prev = es.subrange(i + 1, i + n);
        assert(sub.drop_last() =~= prev);
        assert(all_item_inline(prev)) by {
            assert forall|q: int| 0 <= q < prev.len() implies (#[trigger] prev[q]) is Text || prev[q] is Code
                || prev[q] is Break by {
                assert(prev[q] == sub[q]);
            }
        }
        lemma_item_collects(es, i, n - 1);
        assert(sub.last() == es[i + n]);
        assert(sub[n - 1] is Text || sub[n - 1] is Code || sub[n - 1] is Break);
        let st = arrow_scan(es, i + n);
        if es[i + n] is Code {
            let t = es[i + n]->Code_0;
            assert(st.item.push('`') + t.push('`') =~= st.item + (seq!['`'] + t + seq!['`']));
        } else if es[i + n] is Break {
            assert(st.item.push(' ') =~= st.item + seq![' ']);
        }
    } else {
        assert(es.subrange(i + 1, i + 1) =~= Seq::<MdView>::empty());
    }
}

/// A bullet under `## References` goes to the list its `### ` section
/// names (HLD, LLD, EARS, Tests or Code), as the trimmed text of its
/// inline events (inline code kept between backticks); an empty bullet,
/// or one under any other section, is dropped. The other lists stay as
/// they were.
pub proof fn law_arrow_bullet(es: Seq<MdView>, i: int, n: int)
    requires
        0 <= i,
        0 <= n,
        i + n + 1 < es.len(),
        arrow_scan(es, i).in_references,
        !arrow_scan(es, i).collecting,
        es[i] == MdView::StartItem,
        all_item_inline(es.subrange(i + 1, i + 1 + n)),
        es[i + 1 + n] == MdView::EndItem,
    ensures
        ({
            let st = arrow_scan(es, i);
            let after = arrow_scan(es, i + n + 2);
            let b = trim(item_text(es.subrange(i + 1, i + 1 + n)));
            let name = st.h3_name;
            let k = if name == "HLD"@ {
                0int
            } else if name == "LLD"@ {
                1
            } else if name == "EARS"@ {
                2
            } else if name == "Tests"@ {
                3
            } else if name == "Code"@ {
                4
            } else {
                -1
            };
            &&& after.refs.len() == 5
            &&& forall|j: int| 0 <= j < 5 && j != k ==> #[trigger] after.refs[j] == st.refs[j]
            &&& k != -1 ==> after.refs[k] == if b.len() > 0 {
                st.refs[k].push(b)
            } else {
                st.refs[k]
            }
        }),
{
    lemma_refs_need_heading(es, i);
    lemma_item_collects(es, i, n);
}

/// Among the first `n` events, some closes a level-2 heading that reads
/// `References` (trimmed).
pub open spec fn references_heading_seen(es: Seq<MdView>, n: int) -> bool {
    exists|q: int| 0 <= q < n && es[q] == MdView::EndHeading(2) && trim((#[trigger] arrow_scan(es, q)).heading) == "References"@
}

proof fn lemma_refs_need_heading(es: Seq<MdView>, n: int)
    requires
        0 <= n <= es.len(),
    ensures
        arrow_scan(es, n).refs.len() == 5,
        arrow_scan(es, n).in_references ==> references_heading_seen(es, n),
        arrow_scan(es, n).in_item ==> references_heading_seen(es, n),
        (exists|k: int| 0 <= k < 5 && #[trigger] arrow_scan(es, n).refs[k].len() > 0) ==> references_heading_seen(es, n),
    decreases n,
{
    if n > 0 {
        lemma_refs_need_heading(es, n - 1);
        let a = arrow_scan(es, n - 1);
        if references_heading_seen(es, n - 1) {
            let q = choose|q: int|
                0 <= q < n - 1 && es[q] == MdView::EndHeading(2) && trim((#[trigger] arrow_scan(es, q)).heading)
                    == "References"@;
            assert(0 <= q < n && es[q] == MdView::EndHeading(2) && trim(arrow_scan(es, q).heading) == "References"@);
        }
        let b = arrow_scan(es, n);
        if exists|k: int| 0 <= k < 5 && #[trigger] b.refs[k].len() > 0 {
            let k = choose|k: int| 0 <= k < 5 && #[trigger] b.refs[k].len() > 0;
            if a.refs[k].len() == 0 {
                assert(a.in_item);
            }
        }
    } else {
        let b = arrow_scan(es, 0);
        assert forall|k: int| 0 <= k < 5 implies #[trigger] b.refs[k].len() == 0 by {}
    }
}

/// An arrow doc's reference lists are only filled under a level-2
/// heading `References`: a document without one has none.
pub proof fn law_arrow_refs_need_references_heading(es: Seq<MdView>)
    ensures
        (exists|k: int| 0 <= k < 5 && #[trigger] arrow_scan(es, es.len() as int).refs[k].len() > 0)
            ==> references_heading_seen(es, es.len() as int),
{
    lemma_refs_need_heading(es, es.len() as int);
}

proof fn lemma_heading_collects(es: Seq<MdView>, i: int, n: int)
    requires
        0 <= i,
        0 <= n,
        i + 1 + n <= es.len(),
        es[i] is StartHeading,
        all_inline(es.subrange(i + 1, i + 1 + n)),
    ensures
        arrow_scan(es, i + 1 + n) == (ArrowScan {
            collecting: true,
            heading: inline_text(es.subrange(i + 1, i + 1 + n)),
            in_item: false,
            ..arrow_scan(es, i)
        }),
    decreases n,
{
    if n > 0 {
        let sub = es.subrange(i + 1, i + 1 + n);
        let prev = es.subrange(i + 1, i + n);
        assert(sub.drop_last() =~= prev);
        assert(all_inline(prev)) by {
            assert forall|q: int| 0 <= q < prev.len() implies (#[trigger] prev[q]) is Text || prev[q] is Code by {
                assert(prev[q] == sub[q]);
            }
        }
        lemma_heading_collects(es, i, n - 1);
        assert(sub.last() == es[i + n]);
        assert(sub[n - 1] is Text || sub[n - 1] is Code);
    } else {
        assert(es.subrange(i + 1, i + 1) =~= Seq::<MdView>::empty());
    }
}

/// A `### Name` heading under `## References` opens the section `Name`
/// (its trimmed text); a name other than HLD, LLD, EARS, Tests or Code is
/// recorded as unrecognised, in order, and a known one is not.
pub proof fn law_arrow_section_heading(es: Seq<MdView>, i: int, n: int)
    requires
        0 <= i,
        0 <= n,
        i + n + 1 < es.len(),
        arrow_scan(es, i).in_references,
        es[i] == MdView::StartHeading(3),
        all_inline(es.subrange(i + 1, i + 1 + n)),
        es[i + 1 + n] == MdView::EndHeading(3),
    ensures
        ({
            let st = arrow_scan(es, i);
            let after = arrow_scan(es, i + n + 2);
            let name = trim(inline_text(es.subrange(i + 1, i + 1 + n)));
            &&& after.in_references
            &&& after.h3_name == name
            &&& after.refs == st.refs
            &&& after.unrecognized == if name == "HLD"@ || name == "LLD"@ || name == "EARS"@ || name == "Tests"@
                || name == "Code"@ {
                st.unrecognized
            } else {
                st.unrecognized.push(name)
            }
        }),
{
    lemma_heading_collects(es, i, n);
    let name = trim(inline_text(es.subrange(i + 1, i + 1 + n)));
    let k = known_reference_sections();
    assert(k[0] == "HLD"@ && k[1] == "LLD"@ && k[2] == "EARS"@ && k[3] == "Tests"@ && k[4] == "Code"@);
    if k.contains(name) {
        let j = choose|j: int| 0 <= j < k.len() && k[j] == name;
    }
}

fn is_known_section(name: &str) -> (r: bool)
    ensures
        r == known_reference_sections().contains(name@),
{
    proof {
        let k = known_reference_sections();
        assert(k[0] == "HLD"@ && k[1] == "LLD"@ && k[2] == "EARS"@ && k[3] == "Tests"@ && k[4] == "Code"@);
    }
    str_eq(name, "HLD") || str_eq(name, "LLD") || str_eq(name, "EARS") || str_eq(name, "Tests") || str_eq(
        name,
        "Code",
    )
}

fn section_of(name: &str) -> (r: usize)
    ensures
        r == if section_index(name@) == -1 {
            5
        } else {
            section_index(name@)
        },
{
    if str_eq(name, "HLD") {
        0
    } else if str_eq(name, "LLD") {
        1
    } else if str_eq(name, "EARS") {
        2
    } else if str_eq(name, "Tests") {
        3
    } else if str_eq(name, "Code") {
        4
    } else {
        5
    }
}

/// Plain views of strings.
pub open spec fn strs(v: Seq<String>) -> Seq<Seq<char>> {
    v.map_values(|s: String| s@)
}

fn push_str_view(v: &mut Vec<String>, s: String)
    ensures
        strs(final(v)@) == strs(old(v)@).push(s@),
{
    v.push(s);
    assert(strs(v@) =~= strs(old(v)@).push(s@));
}

/// Read an arrow doc from its event stream.
pub fn arrow_doc_from_events(events: &Vec<MdEvent>, source_path: &str) -> (r: ArrowDoc)
    ensures
        arrow_doc_matches(r, md_views(events@), source_path@),
{
    let ghost es = md_views(events@);
    let mut hld: Vec<String> = Vec::new();
    let mut lld: Vec<String> = Vec::new();
    let mut ears: Vec<String> = Vec::new();
    let mut tests: Vec<String> = Vec::new();
    let mut code: Vec<String> = Vec::new();
    let mut unrecognized: Vec<String> = Vec::new();
    let mut in_references = false;
    let mut h3_name = String::new();
    let mut collecting = false;
    let mut heading = String::new();
    let mut in_item = false;
    let mut item = String::new();
    let mut i: usize = 0;
    while i < events.len()
        invariant
            0 <= i <= events@.len(),
            es == md_views(events@),
            ({
                let st = arrow_scan(es, i as int);
                &&& st.refs.len() == 5
                &&& strs(hld@) == st.refs[0]
                &&& strs(lld@) == st.refs[1]
                &&& strs(ears@) == st.refs[2]
                &&& strs(tests@) == st.refs[3]
                &&& strs(code@) == st.refs[4]
                &&& strs(unrecognized@) == st.unrecognized
                &&& in_references == st.in_references
                &&& h3_name@ == st.h3_name
                &&& collecting == st.collecting
                &&& heading@ == st.heading
                &&& in_item == st.in_item
                &&& item@ == st.item
            }),
        decreases events@.len() - i,
    {
        let ghost st = arrow_scan(es, i as int);
        assert(arrow_scan(es, i + 1) == arrow_step(st, es[i as int]));
        assert(es[i as int] == md_view(events@[i as int]));
        match &events[i] {
            MdEvent::StartHeading(_) => {
                collecting = true;
                heading = String::new();
                in_item = false;
            },
            MdEvent::EndHeading(level) => {
                let text = trim_str(heading.as_str());
                collecting = false;
                if *level == 2 {
                    in_references = str_eq(text.as_str(), "References");
                    h3_name = String::new();
                } else if *level == 3 && in_references {
                    if !is_known_section(text.as_str()) {
                        push_str_view(&mut unrecognized, text.clone());
                    }
                    h3_name = text;
                } else if *level == 3 {
                    h3_name = String::new();
                }
            },
            MdEvent::Text(t) => {
                if collecting {
                    heading.append(t.as_str());
                } else if in_item {
                    item.append(t.as_str());
                }
            },
            MdEvent::Code(t) => {
                if collecting {
                    heading.append(t.as_str());
                } else if in_item {
                    push_char(&mut item, '`');
                    item.append(t.as_str());
                    push_char(&mut item, '`');
                    assert(item@ =~= st.item.push('`') + t@.push('`'));
                }
            },
            MdEvent::StartItem => {
                if in_references {
                    in_item = true;
                    item = String::new();
                }
            },
            MdEvent::EndItem => {
                if in_item {
                    let b = trim_str(item.as_str());
                    let k = section_of(h3_name.as_str());
                    if b.as_str().unicode_len() > 0 && k < 5 {
                        if k == 0 {
                            push_str_view(&mut hld, b);
                        } else if k == 1 {
                            push_str_view(&mut lld, b);
                        } else if k == 2 {
                            push_str_view(&mut ears, b);
                        } else if k == 3 {
                            push_str_view(&mut tests, b);
                        } else {
                            push_str_view(&mut code, b);
                        }
                    }
                    in_item = false;
                }
            },
            MdEvent::Break => {
                if in_item {
                    push_char(&mut item, ' ');
                }
            },
            _ => {},
        }
        i = i + 1;
    }
    ArrowDoc {
        path: source_path.to_owned(),
        references: ArrowReferences { hld, lld, ears, tests, code },
        unrecognized_reference_sections: unrecognized,
    }
}

/// Parse an arrow detail doc from an in-memory string.
pub fn parse_arrow_doc(content: &str, source_path: &str) -> (r: ArrowDoc)
    ensures
        arrow_doc_matches(r, cmark_events(content@), source_path@),
{
    let events = parse_events(content);
    arrow_doc_from_events(&events, source_path)
}

// ---------------------------------------------------------------- LLDs

/// Reader state while walking an LLD's events.
pub struct LldScan {
    /// `(decision, chosen, alternatives, rationale, inferred)` per row.
    pub rows: Seq<(Seq<char>, Seq<char>, Seq<char>, Seq<char>, bool)>,
    pub in_decisions: bool,
    pub collecting_h2: bool,
    pub h2: Seq<char>,
    pub in_table: bool,
    pub header: bool,
    pub row: Seq<Seq<char>>,
    pub in_cell: bool,
    pub cell: Seq<char>,
}

/// Before the first event.
pub open spec fn lld_init() -> LldScan {
    LldScan {
        rows: Seq::empty(),
        in_decisions: false,
        collecting_h2: false,
        h2: Seq::empty(),
        in_table: false,
        header: false,
        row: Seq::empty(),
        in_cell: false,
        cell: Seq::empty(),
    }
}

/// Cell `k` of a row, empty when the row is shorter.
pub open spec fn cell_or_empty(row: Seq<Seq<char>>, k: int) -> Seq<char> {
    if k < row.len() {
        row[k]
    } else {
        Seq::empty()
    }
}

/// Some cell of the row holds `[inferred]`.
pub open spec fn row_inferred(row: Seq<Seq<char>>) -> bool {
    exists|k: int| 0 <= k < row.len() && contains_seq(#[trigger] row[k], "[inferred]"@)
}

/// The state after one event.
pub open spec fn lld_step(st: LldScan, e: MdView) -> LldScan {
    match e {
        MdView::StartHeading(l) => if l == 2 {
            LldScan { collecting_h2: true, h2: Seq::empty(), in_table: false, ..st }
        } else {
            st
        },
        MdView::EndHeading(l) => if l == 2 {
            LldScan {
                collecting_h2: false,
                in_decisions: trim(st.h2) == "Decisions & Alternatives"@ || trim(st.h2)
                    == "Decisions and Alternatives"@,
                ..st
            }
        } else {
            st
        },
        MdView::Text(t) => if st.collecting_h2 {
            LldScan { h2: st.h2 + t, ..st }
        } else if st.in_cell && !st.header {
            LldScan { cell: st.cell + t, ..st }
        } else {
            st
        },
        MdView::Code(t) => if st.in_cell && !st.header {
            LldScan { cell: st.cell + t, ..st }
        } else {
            st
        },
        MdView::StartTable => if st.in_decisions {
            LldScan { in_table: true, ..st }
        } else {
            st
        },
        MdView::EndTable => LldScan { in_table: false, ..st },
        MdView::StartHead => LldScan { header: true, ..st },
        MdView::EndHead => LldScan { header: false, ..st },
        MdView::StartRow => LldScan { row: Seq::empty(), ..st },
        MdView::EndRow => if st.in_table && !st.header {
            LldScan {
                rows: st.rows.push(
                    (
                        cell_or_empty(st.row, 0),
                        cell_or_empty(st.row, 1),
                        cell_or_empty(st.row, 2),
                        cell_or_empty(st.row, 3),
                        row_inferred(st.row),
                    ),
                ),
                row: Seq::empty(),
                ..st
            }
        } else {
            st
        },
        MdView::StartCell => if st.in_table {
            LldScan { in_cell: true, cell: Seq::empty(), ..st }
        } else {
            st
        },
        MdView::EndCell => if st.in_table && !st.header {
            LldScan { row: st.row.push(trim(st.cell)), cell: Seq::empty(), in_cell: false, ..st }
        } else if st.in_table {
            LldScan { in_cell: false, ..st }
        } else {
            st
        },
        _ => st,
    }
}

/// The state after the first `n` events.
pub open spec fn lld_scan(es: Seq<MdView>, n: int) -> LldScan
    decreases n,
{
    if n <= 0 {
        lld_init()
    } else {
        lld_step(lld_scan(es, n - 1), es[n - 1])
    }
}

/// A level-2 heading text that opens the decisions section.
pub open spec fn decisions_title(h: Seq<char>) -> bool {
    trim(h) == "Decisions & Alternatives"@ || trim(h) == "Decisions and Alternatives"@
}

/// Among the first `n` events, some closes a level-2 heading titled
/// `Decisions & Alternatives` (or `and`).
pub open spec fn decisions_heading_seen(es: Seq<MdView>, n: int) -> bool {
    exists|i: int| 0 <= i < n && es[i] == MdView::EndHeading(2) && decisions_title(#[trigger] lld_scan(es, i).h2)
}

proof fn lemma_lld_rows_need_heading(es: Seq<MdView>, n: int)
    requires
        0 <= n <= es.len(),
    ensures
        lld_scan(es, n).in_decisions ==> decisions_heading_seen(es, n),
        lld_scan(es, n).in_table ==> decisions_heading_seen(es, n),
        lld_scan(es, n).rows.len() > 0 ==> decisions_heading_seen(es, n),
    decreases n,
{
    if n > 0 {
        lemma_lld_rows_need_heading(es, n - 1);
        let a = lld_scan(es, n - 1);
        if decisions_heading_seen(es, n - 1) {
            let i = choose|i: int|
                0 <= i < n - 1 && es[i] == MdView::EndHeading(2) && decisions_title(#[trigger] lld_scan(es, i).h2);
            assert(0 <= i < n && es[i] == MdView::EndHeading(2) && decisions_title(lld_scan(es, i).h2));
        }
        if es[n - 1] == MdView::EndHeading(2) && decisions_title(a.h2) {
            assert(decisions_title(lld_scan(es, n - 1).h2));
        }
    }
}

/// An LLD's decision rows only ever come from a table read after a
/// level-2 heading titled `Decisions & Alternatives` (or `Decisions and
/// Alternatives`): a document without such a heading has no rows.
pub proof fn law_lld_rows_need_decisions_heading(es: Seq<MdView>)
    ensures
        lld_scan(es, es.len() as int).rows.len() > 0 ==> decisions_heading_seen(es, es.len() as int),
{
    lemma_lld_rows_need_heading(es, es.len() as int);
}

/// The text that Text and inline Code events carry, joined in order.
pub open spec fn inline_text(es: Seq<MdView>) -> Seq<char>
    decreases es.len(),
{
    if es.len() == 0 {
        Seq::empty()
    } else {
        inline_text(es.drop_last()) + match es.last() {
            MdView::Text(t) => t,
            MdView::Code(t) => t,
            _ => Seq::empty(),
        }
    }
}

/// Every event of `es` is Text or inline Code.
pub open spec fn all_inline(es: Seq<MdView>) -> bool {
    forall|q: int| 0 <= q < es.len() ==> (#[trigger] es[q]) is Text || es[q] is Code
}

proof fn lemma_cell_collects(es: Seq<MdView>, i: int, n: int)
    requires
        0 <= i,
        i + 1 + n <= es.len(),
        0 <= n,
        lld_scan(es, i).in_table,
        !lld_scan(es, i).header,
        !lld_scan(es, i).collecting_h2,
        es[i] == MdView::StartCell,
        all_inline(es.subrange(i + 1, i + 1 + n)),
    ensures
        lld_scan(es, i + 1 + n) == (LldScan {
            in_cell: true,
            cell: inline_text(es.subrange(i + 1, i + 1 + n)),
            ..lld_scan(es, i)
        }),
    decreases n,
{
    if n > 0 {
        let sub = es.subrange(i + 1, i + 1 + n);
        let prev = es.subrange(i + 1, i + n);
        assert(sub.drop_last() =~= prev);
        assert(all_inline(prev)) by {
            assert forall|q: int| 0 <= q < prev.len() implies (#[trigger] prev[q]) is Text || prev[q] is Code by {
                assert(prev[q] == sub[q]);
            }
        }
        lemma_cell_collects(es, i, n - 1);
        assert(sub.last() == es[i + n]);
        assert(sub[n - 1] is Text || sub[n - 1] is Code);
    } else {
        assert(es.subrange(i + 1, i + 1) =~= Seq::<MdView>::empty());
    }
}

/// A body cell of a decisions table holds the trimmed text of all its
/// Text and inline Code events, in order: reading `StartCell`, such
/// events, then `EndCell` inside a table body adds exactly that cell to
/// the row being read.
pub proof fn law_lld_cell_is_its_inline_text(es: Seq<MdView>, i: int, n: int)
    requires
        0 <= i,
        0 <= n,
        i + n + 1 < es.len(),
        lld_scan(es, i).in_table,
        !lld_scan(es, i).header,
        !lld_scan(es, i).collecting_h2,
        es[i] == MdView::StartCell,
        all_inline(es.subrange(i + 1, i + 1 + n)),
        es[i + 1 + n] == MdView::EndCell,
    ensures
        lld_scan(es, i + n + 2).row == lld_scan(es, i).row.push(trim(inline_text(es.subrange(i + 1, i + 1 + n)))),
{
    lemma_cell_collects(es, i, n);
}

/// The end of a table row records it as a decision row only in a table's
/// body: the first four cells are decision, chosen, alternatives and
/// rationale (a missing cell is empty), and the row counts as inferred
/// exactly when some cell contains `[inferred]`. A header row records
/// nothing.
pub proof fn law_lld_row_end(es: Seq<MdView>, i: int)
    requires
        0 <= i < es.len(),
        es[i] == MdView::EndRow,
    ensures
        ({
            let st = lld_scan(es, i);
            let row = st.row;
            let after = lld_scan(es, i + 1);
            &&& st.in_table && !st.header ==> {
                &&& after.rows.len() == st.rows.len() + 1
                &&& after.rows.take(st.rows.len() as int) == st.rows
                &&& after.rows.last().0 == (if row.len() > 0 { row[0] } else { Seq::empty() })
                &&& after.rows.last().1 == (if row.len() > 1 { row[1] } else { Seq::empty() })
                &&& after.rows.last().2 == (if row.len() > 2 { row[2] } else { Seq::empty() })
                &&& after.rows.last().3 == (if row.len() > 3 { row[3] } else { Seq::empty() })
                &&& after.rows.last().4 <==> exists|c: int|
                    0 <= c < row.len() && contains_seq(#[trigger] row[c], "[inferred]"@)
            }
            &&& (st.header || !st.in_table) ==> after.rows == st.rows
        }),
{
    let st = lld_scan(es, i);
    if st.in_table && !st.header {
        let after = lld_scan(es, i + 1);
        assert(after.rows.take(st.rows.len() as int) =~= st.rows);
    }
}

/// A decision row as plain values.
pub open spec fn row_view(r: DecisionRow) -> (Seq<char>, Seq<char>, Seq<char>, Seq<char>, bool) {
    (r.decision@, r.chosen@, r.alternatives@, r.rationale@, r.inferred)
}

/// `d` holds the decision rows reading `es` found, for a doc at `path`.
pub open spec fn lld_matches(d: LldDoc, es: Seq<MdView>, path: Seq<char>) -> bool {
    &&& d.path@ == path
    &&& d.decisions@.map_values(|r: DecisionRow| row_view(r)) == lld_scan(es, es.len() as int).rows
}

fn cell_at(row: &Vec<String>, k: usize) -> (r: String)
    ensures
        r@ == cell_or_empty(strs(row@), k as int),
{
    if k < row.len() {
        row[k].clone()
    } else {
        String::new()
    }
}

fn any_inferred(row: &Vec<String>) -> (r: bool)
    ensures
        r == row_inferred(strs(row@)),
{
    let mut k: usize = 0;
    while k < row.len()
        invariant
            0 <= k <= row@.len(),
            forall|q: int| 0 <= q < k ==> !contains_seq(#[trigger] strs(row@)[q], "[inferred]"@),
        decreases row@.len() - k,
    {
        if str_contains(row[k].as_str(), "[inferred]") {
            assert(strs(row@)[k as int] == row@[k as int]@);
            return true;
        }
        assert(strs(row@)[k as int] == row@[k as int]@);
        k = k + 1;
    }
    false
}

/// Read an LLD's decision rows from its event stream.
pub fn lld_from_events(events: &Vec<MdEvent>, source_path: &str) -> (r: LldDoc)
    ensures
        lld_matches(r, md_views(events@), source_path@),
{
    let ghost es = md_views(events@);
    let mut rows: Vec<DecisionRow> = Vec::new();
    let mut in_decisions = false;
    let mut collecting_h2 = false;
    let mut h2 = String::new();
    let mut in_table = false;
    let mut header = false;
    let mut row: Vec<String> = Vec::new();
    let mut in_cell = false;
    let mut cell = String::new();
    let mut i: usize = 0;
    while i < events.len()
        invariant
            0 <= i <= events@.len(),
            es == md_views(events@),
            ({
                let st = lld_scan(es, i as int);
                &&& rows@.map_values(|r: DecisionRow| row_view(r)) == st.rows
                &&& in_decisions == st.in_decisions
                &&& collecting_h2 == st.collecting_h2
                &&& h2@ == st.h2
                &&& in_table == st.in_table
                &&& header == st.header
                &&& strs(row@) == st.row
                &&& in_cell == st.in_cell
                &&& cell@ == st.cell
            }),
        decreases events@.len() - i,
    {
        let ghost st = lld_scan(es, i as int);
        assert(lld_scan(es, i + 1) == lld_step(st, es[i as int]));
        assert(es[i as int] == md_view(events@[i as int]));
        match &events[i] {
            MdEvent::StartHeading(l) => {
                if *l == 2 {
                    collecting_h2 = true;
                    h2 = String::new();
                    in_table = false;
                }
            },
            MdEvent::EndHeading(l) => {
                if *l == 2 {
                    collecting_h2 = false;
                    let t = trim_str(h2.as_str());
                    in_decisions = str_eq(t.as_str(), "Decisions & Alternatives") || str_eq(
                        t.as_str(),
                        "Decisions and Alternatives",
                    );
                }
            },
            MdEvent::Text(t) => {
                if collecting_h2 {
                    h2.append(t.as_str());
                } else if in_cell && !header {
                    cell.append(t.as_str());
                }
            },
            MdEvent::Code(t) => {
                if in_cell && !header {
                    cell.append(t.as_str());
                }
            },
            MdEvent::StartTable => {
                if in_decisions {
                    in_table = true;
                }
            },
            MdEvent::EndTable => {
                in_table = false;
            },
            MdEvent::StartHead => {
                header = true;
            },
            MdEvent::EndHead => {
                header = false;
            },
            MdEvent::StartRow => {
                row = Vec::new();
                assert(strs(row@) =~= Seq::<Seq<char>>::empty());
            },
            MdEvent::EndRow => {
                if in_table && !header {
                    let r = DecisionRow {
                        decision: cell_at(&row, 0),
                        chosen: cell_at(&row, 1),
                        alternatives: cell_at(&row, 2),
                        rationale: cell_at(&row, 3),
                        inferred: any_inferred(&row),
                    };
                    let ghost before = rows@.map_values(|r: DecisionRow| row_view(r));
                    rows.push(r);
                    assert(rows@.map_values(|r: DecisionRow| row_view(r)) =~= before.push(row_view(r)));
                    row = Vec::new();
                    assert(strs(row@) =~= Seq::<Seq<char>>::empty());
                }
            },
            MdEvent::StartCell => {
                if in_table {
                    in_cell = true;
                    cell = String::new();
                }
            },
            MdEvent::EndCell => {
                if in_table && !header {
                    let t = trim_str(cell.as_str());
                    push_str_view(&mut row, t);
                    cell = String::new();
                    in_cell = false;
                } else if in_table {
                    in_cell = false;
                }
            },
            _ => {},
        }
        i = i + 1;
    }
    LldDoc { path: source_path.to_owned(), decisions: rows }
}

/// Parse an LLD from an in-memory string, collecting the rows of its
/// `Decisions & Alternatives` table.
pub fn parse_lld(content: &str, source_path: &str) -> (r: LldDoc)
    ensures
        lld_matches(r, cmark_table_events(content@), source_path@),
{
    let events = parse_table_events(content);
    lld_from_events(&events, source_path)
}

} // verus!
