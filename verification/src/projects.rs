//! The project page's design list: which designs a search shows, and in
//! what order (pinned designs first, then by the chosen sort).

use vstd::prelude::*;

use crate::studio::ProjectsSort;
use crate::text::{has_infix, lex_lt, str_to_lowercase, trim_ws, unicode_lowercase};

verus! {

/// One design as the project list reads it: its id, name, optional
/// description and the instant of its last update (an integer that orders
/// as the instants do).
pub struct DesignRow {
    pub id: u128,
    pub name: String,
    pub description: Option<String>,
    pub updated_at: i128,
}

/// Whether a design with this lower-cased name and description is shown
/// for a lower-cased query: every design for an empty query, else those
/// whose name or description contains it.
pub open spec fn spec_design_matches(name_lower: Seq<char>, description_lower: Option<Seq<char>>, query_lower: Seq<char>) -> bool {
    query_lower.len() == 0 || has_infix(name_lower, query_lower) || match description_lower {
        Some(d) => has_infix(d, query_lower),
        None => false,
    }
}

/// Whether a design is shown for a search text: the text is trimmed and
/// lower-cased, and so are the design's name and description.
pub open spec fn design_shown(row: DesignRow, search: Seq<char>) -> bool {
    spec_design_matches(
        unicode_lowercase(row.name@),
        match row.description {
            Some(d) => Some(unicode_lowercase(d@)),
            None => None,
        },
        unicode_lowercase(trim_ws(search)),
    )
}

/// For each row, whether a search for `search` shows it.
pub open spec fn shown_flags(rows: Seq<DesignRow>, search: Seq<char>) -> Seq<bool> {
    Seq::new(rows.len(), |i: int| design_shown(rows[i], search))
}

/// Whether row `i` is pinned.
pub open spec fn row_pinned(rows: Seq<DesignRow>, pinned: Seq<u128>, i: int) -> bool {
    pinned.contains(rows[i].id)
}

/// Row `i` comes before row `j` under the sort alone.
pub open spec fn sort_key_lt(rows: Seq<DesignRow>, sort: ProjectsSort, i: int, j: int) -> bool {
    match sort {
        ProjectsSort::NameAsc => lex_lt(rows[i].name@, rows[j].name@),
        ProjectsSort::NameDesc => lex_lt(rows[j].name@, rows[i].name@),
        ProjectsSort::UpdatedAsc => rows[i].updated_at < rows[j].updated_at,
        ProjectsSort::UpdatedDesc => rows[j].updated_at < rows[i].updated_at,
    }
}

/// Rows `i` and `j` tie under the sort.
pub open spec fn sort_key_eq(rows: Seq<DesignRow>, sort: ProjectsSort, i: int, j: int) -> bool {
    match sort {
        ProjectsSort::NameAsc | ProjectsSort::NameDesc => rows[i].name@ == rows[j].name@,
        ProjectsSort::UpdatedAsc | ProjectsSort::UpdatedDesc => rows[i].updated_at == rows[j].updated_at,
    }
}

/// Row `i` is listed before row `j`: pinned rows first; within each group
/// by the sort; ties keep the rows' own order (the sort is stable).
pub open spec fn listed_before(rows: Seq<DesignRow>, pinned: Seq<u128>, sort: ProjectsSort, i: int, j: int) -> bool {
    let pi = row_pinned(rows, pinned, i);
    let pj = row_pinned(rows, pinned, j);
    (pi && !pj) || (pi == pj && (sort_key_lt(rows, sort, i, j) || (sort_key_eq(rows, sort, i, j) && i < j)))
}

/// `order` lists exactly the rows marked in `shown`, each once, in list
/// order.
pub open spec fn is_design_order(
    rows: Seq<DesignRow>,
    shown: Seq<bool>,
    pinned: Seq<u128>,
    sort: ProjectsSort,
    order: Seq<usize>,
) -> bool {
    &&& forall|k: int| 0 <= k < order.len() ==> #[trigger] order[k] < rows.len() && shown[order[k] as int]
    &&& forall|i: int| 0 <= i < rows.len() && shown[i] ==> order.contains(i as usize)
    &&& forall|k: int, l: int|
        0 <= k < l < order.len() ==> listed_before(rows, pinned, sort, #[trigger] order[k] as int, #[trigger] order[l] as int)
}

/// Of two different rows exactly one is listed first.
proof fn lemma_listed_total(rows: Seq<DesignRow>, pinned: Seq<u128>, sort: ProjectsSort, i: int, j: int)
    requires
        i != j,
    ensures
        listed_before(rows, pinned, sort, i, j) != listed_before(rows, pinned, sort, j, i),
{
    crate::text::lemma_lex_total(rows[i].name@, rows[j].name@);
}

/// Listing order is transitive.
proof fn lemma_listed_transitive(rows: Seq<DesignRow>, pinned: Seq<u128>, sort: ProjectsSort, i: int, j: int, k: int)
    requires
        listed_before(rows, pinned, sort, i, j),
        listed_before(rows, pinned, sort, j, k),
    ensures
        listed_before(rows, pinned, sort, i, k),
{
    let a = rows[i].name@;
    let b = rows[j].name@;
    let c = rows[k].name@;
    if lex_lt(a, b) && lex_lt(b, c) {
        crate::text::lemma_lex_transitive(a, b, c);
    }
    if lex_lt(c, b) && lex_lt(b, a) {
        crate::text::lemma_lex_transitive(c, b, a);
    }
    crate::text::lemma_lex_total(a, c);
    crate::text::lemma_lex_irreflexive(a);
}

/// Whether a design is shown for a query: with the name, description and
/// query already lower-cased.
pub fn design_matches(name_lower: &str, description_lower: Option<&str>, query_lower: &str) -> (r: bool)
    ensures
        r == spec_design_matches(
            name_lower@,
            match description_lower {
                Some(d) => Some(d@),
                None => None,
            },
            query_lower@,
        ),
{
    if query_lower.unicode_len() == 0 {
        return true;
    }
    if crate::text::contains(name_lower, query_lower) {
        return true;
    }
    match description_lower {
        Some(d) => crate::text::contains(d, query_lower),
        None => false,
    }
}

fn pinned_contains(pinned: &[u128], id: u128) -> (r: bool)
    ensures
        r == pinned@.contains(id),
{
    let mut i: usize = 0;
    while i < pinned.len()
        invariant
            i <= pinned@.len(),
            forall|j: int| 0 <= j < i ==> pinned@[j] != id,
        decreases pinned@.len() - i,
    {
        if pinned[i] == id {
            return true;
        }
        i = i + 1;
    }
    false
}

fn listed_before_exec(rows: &[DesignRow], pinned: &[u128], sort: ProjectsSort, i: usize, j: usize) -> (r: bool)
    requires
        i < rows@.len(),
        j < rows@.len(),
    ensures
        r == listed_before(rows@, pinned@, sort, i as int, j as int),
{
    let pi = pinned_contains(pinned, rows[i].id);
    let pj = pinned_contains(pinned, rows[j].id);
    if pi != pj {
        return pi;
    }
    let a = &rows[i];
    let b = &rows[j];
    match sort {
        ProjectsSort::NameAsc => {
            crate::text::str_lt(a.name.as_str(), b.name.as_str()) || (crate::text::str_eq(a.name.as_str(), b.name.as_str())
                && i < j)
        },
        ProjectsSort::NameDesc => {
            crate::text::str_lt(b.name.as_str(), a.name.as_str()) || (crate::text::str_eq(a.name.as_str(), b.name.as_str())
                && i < j)
        },
        ProjectsSort::UpdatedAsc => a.updated_at < b.updated_at || (a.updated_at == b.updated_at && i < j),
        ProjectsSort::UpdatedDesc => b.updated_at < a.updated_at || (a.updated_at == b.updated_at && i < j),
    }
}

/// The order in which the shown designs are listed, as positions in
/// `rows`: pinned designs first, each group by `sort`, ties in the rows'
/// own order.
pub fn project_design_order(rows: &[DesignRow], shown: &[bool], sort: ProjectsSort, pinned: &[u128]) -> (r: Vec<usize>)
    requires
        shown@.len() == rows@.len(),
    ensures
        is_design_order(rows@, shown@, pinned@, sort, r@),
{
    let ghost rs = rows@;
    let ghost ps = pinned@;
    let mut out: Vec<usize> = Vec::new();
    let mut i: usize = 0;
    while i < rows.len()
        invariant
            rs == rows@,
            ps == pinned@,
            shown@.len() == rs.len(),
            i <= rs.len(),
            forall|k: int| 0 <= k < out@.len() ==> #[trigger] out@[k] < i && shown@[out@[k] as int],
            forall|a: int| 0 <= a < i && shown@[a] ==> out@.contains(a as usize),
            forall|k: int, l: int|
                0 <= k < l < out@.len() ==> listed_before(rs, ps, sort, #[trigger] out@[k] as int, #[trigger] out@[l] as int),
        decreases rs.len() - i,
    {
        if shown[i] {
            let mut p: usize = 0;
            while p < out.len() && !listed_before_exec(rows, pinned, sort, i, out[p])
                invariant
                    rs == rows@,
                    ps == pinned@,
                    i < rs.len(),
                    p <= out@.len(),
                    forall|k: int| 0 <= k < out@.len() ==> #[trigger] out@[k] < i,
                    forall|k: int| 0 <= k < p ==> listed_before(rs, ps, sort, #[trigger] out@[k] as int, i as int),
                decreases out@.len() - p,
            {
                proof {
                    lemma_listed_total(rs, ps, sort, out@[p as int] as int, i as int);
                }
                p = p + 1;
            }
            let ghost before = out@;
            out.insert(p, i);
            proof {
                assert(out@ =~= before.insert(p as int, i));
                assert forall|k: int, l: int| 0 <= k < l < out@.len() implies listed_before(
                    rs,
                    ps,
                    sort,
                    #[trigger] out@[k] as int,
                    #[trigger] out@[l] as int,
                ) by {
                    if l < p {
                    } else if l == p {
                    } else if k < p {
                        assert(out@[l] == before[l - 1]);
                        if l - 1 > p {
                            lemma_listed_transitive(rs, ps, sort, i as int, before[p as int] as int, before[l - 1] as int);
                        }
                        lemma_listed_transitive(rs, ps, sort, out@[k] as int, i as int, out@[l] as int);
                    } else if k == p {
                        assert(out@[l] == before[l - 1]);
                        if l - 1 > p {
                            lemma_listed_transitive(rs, ps, sort, i as int, before[p as int] as int, before[l - 1] as int);
                        }
                    } else {
                        assert(out@[k] == before[k - 1] && out@[l] == before[l - 1]);
                    }
                }
                assert forall|a: int| 0 <= a < i + 1 && shown@[a] implies out@.contains(a as usize) by {
                    if a == i {
                        assert(out@[p as int] == i);
                    } else {
                        assert(before.contains(a as usize));
                        let k = choose|k: int| 0 <= k < before.len() && before[k] == a as usize;
                        if k < p {
                            assert(out@[k] == a as usize);
                        } else {
                            assert(out@[k + 1] == a as usize);
                        }
                    }
                }
                assert forall|k: int| 0 <= k < out@.len() implies #[trigger] out@[k] < i + 1 && shown@[out@[k] as int] by {
                    if k < p {
                        assert(out@[k] == before[k]);
                    } else if k > p {
                        assert(out@[k] == before[k - 1]);
                    }
                }
            }
        }
        i = i + 1;
    }
    out
}

/// The designs a search of the project page lists, as positions in
/// `rows`, in list order. The search text is trimmed and lower-cased, and
/// a design is shown when its lower-cased name or description contains
/// it (every design for an empty text); pinned designs come first, each
/// group in the chosen sort, ties in the rows' own order.
pub fn filtered_project_designs(rows: &[DesignRow], search: &str, sort: ProjectsSort, pinned: &[u128]) -> (r: Vec<usize>)
    ensures
        is_design_order(rows@, shown_flags(rows@, search@), pinned@, sort, r@),
{
    let q = str_to_lowercase(crate::text::trim(search));
    let mut shown: Vec<bool> = Vec::new();
    let mut i: usize = 0;
    while i < rows.len()
        invariant
            i <= rows@.len(),
            q@ == unicode_lowercase(trim_ws(search@)),
            shown@.len() == i,
            forall|a: int| 0 <= a < i ==> #[trigger] shown@[a] == design_shown(rows@[a], search@),
        decreases rows@.len() - i,
    {
        let row = &rows[i];
        let name = str_to_lowercase(row.name.as_str());
        let m = match &row.description {
            Some(d) => {
                let dl = str_to_lowercase(d.as_str());
                design_matches(name.as_str(), Some(dl.as_str()), q.as_str())
            },
            None => design_matches(name.as_str(), None, q.as_str()),
        };
        shown.push(m);
        i = i + 1;
    }
    assert(shown@ =~= shown_flags(rows@, search@));
    project_design_order(rows, shown.as_slice(), sort, pinned)
}

/// Pinned designs come first, and within the pinned and the other designs
/// the chosen sort holds, ties keeping the rows' own order.
pub proof fn law_pinned_designs_first(
    rows: Seq<DesignRow>,
    shown: Seq<bool>,
    pinned: Seq<u128>,
    sort: ProjectsSort,
    order: Seq<usize>,
    k: int,
    l: int,
)
    requires
        is_design_order(rows, shown, pinned, sort, order),
        0 <= k < l < order.len(),
    ensures
        row_pinned(rows, pinned, order[l] as int) ==> row_pinned(rows, pinned, order[k] as int),
        row_pinned(rows, pinned, order[k] as int) == row_pinned(rows, pinned, order[l] as int) ==> (sort_key_lt(
            rows,
            sort,
            order[k] as int,
            order[l] as int,
        ) || (sort_key_eq(rows, sort, order[k] as int, order[l] as int) && order[k] < order[l])),
{
    assert(listed_before(rows, pinned, sort, order[k] as int, order[l] as int));
}

} // verus!
