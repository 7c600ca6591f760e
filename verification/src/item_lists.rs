//! Editing the item lists of a schematic: removing what a delete takes
//! away, and moving the items of one sheet between the document and the
//! editor.

use vstd::prelude::*;

use vstd::string::StringExecFns;

use crate::text::{str_eq, texts_view};

verus! {

/// The items of `s` from position `i` on whose mark is off, in order.
pub open spec fn kept_from<T>(s: Seq<T>, m: Seq<bool>, i: int) -> Seq<T>
    decreases s.len() - i,
{
    if i < 0 || i >= s.len() {
        Seq::empty()
    } else {
        (if m[i] { Seq::empty() } else { seq![s[i]] }) + kept_from(s, m, i + 1)
    }
}

/// The items of `s` whose mark is off, in order.
pub open spec fn kept<T>(s: Seq<T>, m: Seq<bool>) -> Seq<T> {
    kept_from(s, m, 0)
}

/// The positions from `i` on whose mark is on, in increasing order.
pub open spec fn marked_from(m: Seq<bool>, i: int) -> Seq<int>
    decreases m.len() - i,
{
    if i < 0 || i >= m.len() {
        Seq::empty()
    } else {
        (if m[i] { seq![i] } else { Seq::empty() }) + marked_from(m, i + 1)
    }
}

/// The positions whose mark is on, in increasing order.
pub open spec fn marked_positions(m: Seq<bool>) -> Seq<int> {
    marked_from(m, 0)
}

/// Which items stand on the sheet `sheet`, by their sheet ids.
pub open spec fn on_sheet(ids: Seq<Seq<char>>, sheet: Seq<char>) -> Seq<bool> {
    ids.map_values(|x: Seq<char>| x == sheet)
}

/// Removes the marked items and keeps the others in their order.
pub fn remove_marked<T>(items: &mut Vec<T>, marked: &[bool])
    requires
        marked@.len() == old(items)@.len(),
    ensures
        final(items)@ == kept(old(items)@, marked@),
{
    let ghost s = items@;
    let mut i = items.len();
    while i > 0
        invariant
            i <= s.len(),
            marked@.len() == s.len(),
            items@ == s.subrange(0, i as int) + kept_from(s, marked@, i as int),
        decreases i,
    {
        i = i - 1;
        let ghost rest = kept_from(s, marked@, i + 1);
        if marked[i] {
            assert(kept_from(s, marked@, i as int) == Seq::<T>::empty() + rest);
            assert(items@.remove(i as int) =~= s.subrange(0, i as int) + kept_from(s, marked@, i as int));
            items.remove(i);
        } else {
            assert(kept_from(s, marked@, i as int) == seq![s[i as int]] + rest);
            assert(s.subrange(0, i + 1) + rest =~= s.subrange(0, i as int) + kept_from(s, marked@, i as int));
        }
    }
    assert(s.subrange(0, 0) + kept_from(s, marked@, 0) =~= kept(s, marked@));
}

/// Removes the item at `i` when there is one; an index past the end
/// changes nothing.
pub fn remove_at_if_valid<T>(items: &mut Vec<T>, i: usize)
    ensures
        final(items)@ == if i < old(items)@.len() { old(items)@.remove(i as int) } else { old(items)@ },
{
    if i < items.len() {
        items.remove(i);
    }
}

/// Whether `i` is one of `ix`.
fn has_index(ix: &[usize], i: usize) -> (r: bool)
    ensures
        r == ix@.contains(i),
{
    let mut k: usize = 0;
    while k < ix.len()
        invariant
            k <= ix@.len(),
            forall|j: int| 0 <= j < k ==> ix@[j] != i,
        decreases ix@.len() - k,
    {
        if ix[k] == i {
            assert(ix@[k as int] == i);
            return true;
        }
        k = k + 1;
    }
    false
}

/// Whether `t` is one of the texts of `list`.
fn has_text(list: &[String], t: &str) -> (r: bool)
    ensures
        r == texts_view(list@).contains(t@),
{
    let mut k: usize = 0;
    while k < list.len()
        invariant
            k <= list@.len(),
            forall|j: int| 0 <= j < k ==> list@[j]@ != t@,
        decreases list@.len() - k,
    {
        if str_eq(list[k].as_str(), t) {
            assert(texts_view(list@)[k as int] == t@);
            return true;
        }
        k = k + 1;
    }
    proof {
        if texts_view(list@).contains(t@) {
            let j = choose|j: int| 0 <= j < texts_view(list@).len() && texts_view(list@)[j] == t@;
            assert(list@[j]@ == t@);
        }
    }
    false
}

/// Marks for `n` items: the positions in `indices` are marked.
pub fn marks_for_indices(n: usize, indices: &[usize]) -> (r: Vec<bool>)
    ensures
        r@.len() == n,
        forall|i: int| 0 <= i < n ==> r@[i] == indices@.contains(i as usize),
{
    let mut r: Vec<bool> = Vec::new();
    let mut i: usize = 0;
    while i < n
        invariant
            i <= n,
            r@.len() == i,
            forall|j: int| 0 <= j < i ==> r@[j] == indices@.contains(j as usize),
        decreases n - i,
    {
        let b = has_index(indices, i);
        r.push(b);
        i = i + 1;
    }
    r
}

/// Marks for items named by `keys`: those whose key is one of `removed`.
pub fn marks_for_keys(keys: &[String], removed: &[String]) -> (r: Vec<bool>)
    ensures
        r@.len() == keys@.len(),
        forall|i: int| 0 <= i < keys@.len() ==> r@[i] == texts_view(removed@).contains(keys@[i]@),
{
    let mut r: Vec<bool> = Vec::new();
    let mut i: usize = 0;
    while i < keys.len()
        invariant
            i <= keys@.len(),
            r@.len() == i,
            forall|j: int| 0 <= j < i ==> r@[j] == texts_view(removed@).contains(keys@[j]@),
        decreases keys@.len() - i,
    {
        let b = has_text(removed, keys[i].as_str());
        r.push(b);
        i = i + 1;
    }
    r
}

/// Marks the items that stand on `sheet`, by their sheet ids.
pub fn marks_on_sheet(sheet_ids: &[String], sheet: &str) -> (r: Vec<bool>)
    ensures
        r@ == on_sheet(texts_view(sheet_ids@), sheet@),
{
    let mut r: Vec<bool> = Vec::new();
    let mut i: usize = 0;
    while i < sheet_ids.len()
        invariant
            i <= sheet_ids@.len(),
            r@.len() == i,
            forall|j: int| 0 <= j < i ==> r@[j] == (sheet_ids@[j]@ == sheet@),
        decreases sheet_ids@.len() - i,
    {
        let b = str_eq(sheet_ids[i].as_str(), sheet);
        r.push(b);
        i = i + 1;
    }
    assert(r@ =~= on_sheet(texts_view(sheet_ids@), sheet@));
    r
}

/// Writes the editor's items of the active sheet into a document list:
/// the items marked as on that sheet go, the others stay in their order,
/// and the editor's items follow them.
pub fn flush_sheet_items<T>(doc_items: &mut Vec<T>, on_active: &[bool], editor_items: Vec<T>)
    requires
        on_active@.len() == old(doc_items)@.len(),
    ensures
        final(doc_items)@ == kept(old(doc_items)@, on_active@) + editor_items@,
{
    remove_marked(doc_items, on_active);
    let mut fresh = editor_items;
    doc_items.append(&mut fresh);
}

/// The texts of a list of `(id, name)` sheets.
pub open spec fn sheets_view(v: Seq<(String, String)>) -> Seq<(Seq<char>, Seq<char>)> {
    v.map_values(|p: (String, String)| (p.0@, p.1@))
}

/// The sheets the editor lists for a document: the document's sheets, or,
/// when it has none, one sheet named `Root` with the active sheet's id.
pub fn sheets_or_root(sheets: Vec<(String, String)>, active: &str) -> (r: Vec<(String, String)>)
    ensures
        sheets@.len() > 0 ==> r@ == sheets@,
        sheets@.len() == 0 ==> sheets_view(r@) == seq![(active@, "Root"@)],
{
    if sheets.len() > 0 {
        return sheets;
    }
    let mut r: Vec<(String, String)> = Vec::new();
    r.push((String::from_str(active), String::from_str("Root")));
    assert(sheets_view(r@) =~= seq![(active@, "Root"@)]);
    r
}

/// The positions of the marked items, in increasing order: which items of
/// a document list a sheet shows in the editor.
pub fn marked_indices(marks: &[bool]) -> (r: Vec<usize>)
    ensures
        r@.len() == marked_positions(marks@).len(),
        forall|k: int| 0 <= k < r@.len() ==> r@[k] as int == marked_positions(marks@)[k],
{
    let mut r: Vec<usize> = Vec::new();
    let mut i = marks.len();
    let ghost m = marks@;
    let mut rev: Vec<usize> = Vec::new();
    while i > 0
        invariant
            i <= m.len(),
            m == marks@,
            rev@.len() == marked_from(m, i as int).len(),
            forall|k: int| 0 <= k < rev@.len() ==> rev@[k] as int == marked_from(m, i as int)[rev@.len() - 1 - k],
        decreases i,
    {
        i = i - 1;
        let ghost after = marked_from(m, i + 1);
        if marks[i] {
            assert(marked_from(m, i as int) == seq![i as int] + after);
            rev.push(i);
        } else {
            assert(marked_from(m, i as int) == Seq::<int>::empty() + after);
            assert(Seq::<int>::empty() + after =~= after);
        }
    }
    let n = rev.len();
    let mut k: usize = 0;
    while k < n
        invariant
            n == rev@.len(),
            k <= n,
            r@.len() == k,
            rev@.len() == marked_from(m, 0).len(),
            forall|j: int| 0 <= j < rev@.len() ==> rev@[j] as int == marked_from(m, 0)[rev@.len() - 1 - j],
            forall|j: int| 0 <= j < k ==> r@[j] as int == marked_from(m, 0)[j],
        decreases n - k,
    {
        let x = rev[n - 1 - k];
        r.push(x);
        k = k + 1;
    }
    r
}

proof fn lemma_kept_concat<T>(a: Seq<T>, b: Seq<T>, ma: Seq<bool>, mb: Seq<bool>, i: int)
    requires
        ma.len() == a.len(),
        mb.len() == b.len(),
        0 <= i <= a.len() + b.len(),
    ensures
        i <= a.len() ==> kept_from(a + b, ma + mb, i) == kept_from(a, ma, i) + kept(b, mb),
        i >= a.len() ==> kept_from(a + b, ma + mb, i) == kept_from(b, mb, i - a.len()),
    decreases a.len() + b.len() - i,
{
    if i < a.len() + b.len() {
        lemma_kept_concat(a, b, ma, mb, i + 1);
        if i < a.len() {
            let head: Seq<T> = if ma[i] { Seq::empty() } else { seq![a[i]] };
            assert((a + b)[i] == a[i]);
            assert((ma + mb)[i] == ma[i]);
            assert(head + (kept_from(a, ma, i + 1) + kept(b, mb)) =~= (head + kept_from(a, ma, i + 1)) + kept(b, mb));
        } else {
            assert((a + b)[i] == b[i - a.len()]);
            assert((ma + mb)[i] == mb[i - a.len()]);
        }
    } else {
        assert(kept_from(a, ma, i) + kept(b, mb) =~= kept(b, mb)) by {
            if i <= a.len() {
                assert(b.len() == 0);
            }
        }
    }
}

proof fn lemma_kept_unmarked<T>(s: Seq<T>, m: Seq<bool>, i: int)
    requires
        m.len() == s.len(),
        0 <= i <= s.len(),
        forall|j: int| i <= j < s.len() ==> !m[j],
    ensures
        kept_from(s, m, i) == s.subrange(i, s.len() as int),
    decreases s.len() - i,
{
    if i < s.len() {
        lemma_kept_unmarked(s, m, i + 1);
        assert(seq![s[i]] + s.subrange(i + 1, s.len() as int) =~= s.subrange(i, s.len() as int));
    } else {
        assert(s.subrange(i, s.len() as int) =~= Seq::<T>::empty());
    }
}

proof fn lemma_kept_marked<T>(s: Seq<T>, m: Seq<bool>, i: int)
    requires
        m.len() == s.len(),
        0 <= i <= s.len(),
        forall|j: int| i <= j < s.len() ==> m[j],
    ensures
        kept_from(s, m, i) == Seq::<T>::empty(),
    decreases s.len() - i,
{
    if i < s.len() {
        lemma_kept_marked(s, m, i + 1);
        assert(Seq::<T>::empty() + Seq::<T>::empty() =~= Seq::<T>::empty());
    }
}

proof fn lemma_kept_same_len<T, U>(s: Seq<T>, u: Seq<U>, m: Seq<bool>, i: int)
    requires
        s.len() == u.len(),
    ensures
        kept_from(s, m, i).len() == kept_from(u, m, i).len(),
    decreases s.len() - i,
{
    if 0 <= i < s.len() {
        lemma_kept_same_len(s, u, m, i + 1);
    }
}

proof fn lemma_kept_elems<T>(s: Seq<T>, m: Seq<bool>, i: int)
    requires
        m.len() == s.len(),
        0 <= i,
    ensures
        forall|k: int| 0 <= k < kept_from(s, m, i).len() ==> exists|j: int| i <= j < s.len() && !m[j]
            && #[trigger] kept_from(s, m, i)[k] == s[j],
    decreases s.len() - i,
{
    if i < s.len() {
        lemma_kept_elems(s, m, i + 1);
        let r = kept_from(s, m, i + 1);
        let head: Seq<T> = if m[i] { Seq::empty() } else { seq![s[i]] };
        assert forall|k: int| 0 <= k < kept_from(s, m, i).len() implies exists|j: int| i <= j < s.len() && !m[j]
            && #[trigger] kept_from(s, m, i)[k] == s[j] by {
            if k < head.len() {
                assert(kept_from(s, m, i)[k] == s[i]);
            } else {
                assert(kept_from(s, m, i)[k] == r[k - head.len()]);
                let j = choose|j: int| i + 1 <= j < s.len() && !m[j] && r[k - head.len()] == s[j];
                assert(i <= j);
            }
        }
    }
}

proof fn lemma_marked_tail(m: Seq<bool>, c: int, i: int)
    requires
        0 <= c <= m.len(),
        forall|j: int| 0 <= j < c ==> !m[j],
        forall|j: int| c <= j < m.len() ==> m[j],
        0 <= i <= m.len(),
    ensures
        marked_from(m, i).len() == m.len() - (if i < c { c } else { i }),
        forall|k: int| 0 <= k < marked_from(m, i).len() ==> #[trigger] marked_from(m, i)[k]
            == (if i < c { c } else { i }) + k,
    decreases m.len() - i,
{
    if i < m.len() {
        lemma_marked_tail(m, c, i + 1);
        let r = marked_from(m, i + 1);
        if m[i] {
            assert forall|k: int| 0 <= k < marked_from(m, i).len() implies #[trigger] marked_from(m, i)[k]
                == (if i < c { c } else { i }) + k by {
                if k > 0 {
                    assert(marked_from(m, i)[k] == r[k - 1]);
                }
            }
        } else {
            assert(marked_from(m, i) =~= r);
        }
    }
}

/// Writing the editor's items of a sheet into the document and then
/// reading that sheet back gives the editor's items, in their order, and
/// leaves the items of the other sheets as they were: `doc` and `ids` are
/// a document list and its items' sheet ids, `fresh` the editor's items.
pub proof fn law_flush_then_hydrate<T>(doc: Seq<T>, ids: Seq<Seq<char>>, sheet: Seq<char>, fresh: Seq<T>)
    requires
        ids.len() == doc.len(),
    ensures
        ({
            let on = on_sheet(ids, sheet);
            let doc2 = kept(doc, on) + fresh;
            let ids2 = kept(ids, on) + Seq::new(fresh.len(), |_k: int| sheet);
            let on2 = on_sheet(ids2, sheet);
            &&& marked_positions(on2).map_values(|p: int| doc2[p]) == fresh
            &&& kept(doc2, on2) == kept(doc, on)
            &&& kept(ids2, on2) == kept(ids, on)
        }),
{
    let on = on_sheet(ids, sheet);
    let kd = kept(doc, on);
    let ki = kept(ids, on);
    let f = fresh.len() as int;
    let fi = Seq::new(fresh.len(), |_k: int| sheet);
    let doc2 = kd + fresh;
    let ids2 = ki + fi;
    let on2 = on_sheet(ids2, sheet);
    lemma_kept_same_len(doc, ids, on, 0);
    lemma_kept_elems(ids, on, 0);
    let c = ki.len() as int;
    assert forall|j: int| 0 <= j < c implies !on2[j] by {
        assert(ids2[j] == ki[j]);
        let w = choose|w: int| 0 <= w < ids.len() && !on[w] && ki[j] == ids[w];
        assert(on[w] == (ids[w] == sheet));
    }
    assert forall|j: int| c <= j < on2.len() implies on2[j] by {
        assert(ids2[j] == fi[j - c]);
    }
    let oa = on2.subrange(0, c);
    let ob = on2.subrange(c, on2.len() as int);
    assert(on2 =~= oa + ob);
    lemma_kept_concat(kd, fresh, oa, ob, 0);
    lemma_kept_concat(ki, fi, oa, ob, 0);
    lemma_kept_unmarked(kd, oa, 0);
    lemma_kept_unmarked(ki, oa, 0);
    lemma_kept_marked(fresh, ob, 0);
    lemma_kept_marked(fi, ob, 0);
    assert(kd.subrange(0, c) =~= kd);
    assert(ki.subrange(0, c) =~= ki);
    assert(kd + Seq::<T>::empty() =~= kd);
    assert(ki + Seq::<Seq<char>>::empty() =~= ki);
    lemma_marked_tail(on2, c, 0);
    let ps = marked_positions(on2);
    assert(ps.map_values(|p: int| doc2[p]) =~= fresh) by {
        assert forall|k: int| 0 <= k < f implies ps.map_values(|p: int| doc2[p])[k] == fresh[k] by {
            assert(ps[k] == c + k);
            assert(doc2[c + k] == fresh[k]);
        }
    }
}

} // verus!
