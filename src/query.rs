//! The query engine: sorts the records of a store, keeps those whose search
//! field contains the search text, and renders them as display rows.
use vstd::prelude::*;
use crate::order::{
    goes_before, ints, is_stable_order, key_eq, lemma_stable_order_unique, sort_order,
    sorted_order, SortMode, SortOrd,
};
use crate::record::{Client, RecordView};
use crate::store::BazaDate;
use crate::text::{chars_of, decimal, decimal_string};

verus! {

/// The field that the search text is looked for in.
#[derive(Debug, Clone, Copy, PartialEq, Eq, Structural)]
pub enum QueryMode {
    FirstName,
    LastName,
    PhoneNumber,
    Address,
}

/// The text of `r` that a search in mode `m` looks at.
pub open spec fn search_field(r: RecordView, m: QueryMode) -> Seq<char> {
    match m {
        QueryMode::FirstName => r.first_name,
        QueryMode::LastName => r.last_name,
        QueryMode::PhoneNumber => r.phone,
        QueryMode::Address => r.address,
    }
}

/// `n` occurs in `h` as a contiguous run of characters (the empty text
/// occurs in every text).
pub open spec fn is_substring(n: Seq<char>, h: Seq<char>) -> bool {
    exists|i: int| 0 <= i && i + n.len() <= h.len() && #[trigger] h.subrange(i, i + n.len()) == n
}

/// The record at position `k` of `rs` passes the search for `q` in mode `m`.
pub open spec fn keeps(rs: Seq<RecordView>, q: Seq<char>, m: QueryMode) -> spec_fn(int) -> bool {
    |k: int| is_substring(q, search_field(rs[k], m))
}

/// The positions of the records that a query shows, in display order: the
/// stable sorted order, restricted to the records that pass the search.
pub open spec fn selection(
    rs: Seq<RecordView>,
    q: Seq<char>,
    qm: QueryMode,
    m: SortMode,
    o: SortOrd,
) -> Seq<int> {
    sorted_order(rs, m, o).filter(keeps(rs, q, qm))
}

/// The display row of a record: ordinal in decimal, first name, last name,
/// phone, address.
pub open spec fn row_of(r: RecordView) -> Seq<Seq<char>> {
    seq![decimal(r.ordinal), r.first_name, r.last_name, r.phone, r.address]
}

/// The rows that a query shows, in order.
pub open spec fn query_rows(
    rs: Seq<RecordView>,
    q: Seq<char>,
    qm: QueryMode,
    m: SortMode,
    o: SortOrd,
) -> Seq<Seq<Seq<char>>> {
    selection(rs, q, qm, m, o).map_values(|k: int| row_of(rs[k]))
}

/// The texts of a row of strings.
pub open spec fn texts(row: Seq<String>) -> Seq<Seq<char>> {
    row.map_values(|s: String| s@)
}

/// The texts of a sequence of rows.
pub open spec fn rows_view(rows: Seq<Vec<String>>) -> Seq<Seq<Seq<char>>> {
    rows.map_values(|row: Vec<String>| texts(row@))
}

proof fn lemma_filter_keeps_all(s: Seq<int>, pred: spec_fn(int) -> bool)
    requires
        forall|i: int| 0 <= i < s.len() ==> pred(#[trigger] s[i]),
    ensures
        s.filter(pred) == s,
    decreases s.len(),
{
    reveal(Seq::filter);
    if s.len() > 0 {
        lemma_filter_keeps_all(s.drop_last(), pred);
        assert(s.drop_last().push(s.last()) =~= s);
    }
}

proof fn lemma_sorted_order_is(rs: Seq<RecordView>, m: SortMode, o: SortOrd, ord: Seq<int>)
    requires
        is_stable_order(rs, m, o, ord),
    ensures
        sorted_order(rs, m, o) == ord,
{
    lemma_stable_order_unique(rs, m, o, sorted_order(rs, m, o), ord);
}

/// A record is shown by a query exactly when the search text occurs in its
/// search field; with an empty search text every record is shown, in sorted
/// order.
pub proof fn lemma_selection_filters(
    rs: Seq<RecordView>,
    q: Seq<char>,
    qm: QueryMode,
    m: SortMode,
    o: SortOrd,
    ord: Seq<int>,
)
    requires
        is_stable_order(rs, m, o, ord),
    ensures
        forall|k: int|
            0 <= k < rs.len() ==> (#[trigger] selection(rs, q, qm, m, o).contains(k)
                <==> is_substring(q, search_field(rs[k], qm))),
        q.len() == 0 ==> selection(rs, q, qm, m, o) == ord,
{
    lemma_sorted_order_is(rs, m, o, ord);
    let pred = keeps(rs, q, qm);
    let sel = ord.filter(pred);
    assert forall|k: int| 0 <= k < rs.len() implies (#[trigger] selection(
        rs,
        q,
        qm,
        m,
        o,
    ).contains(k) <==> is_substring(q, search_field(rs[k], qm))) by {
        if sel.contains(k) {
            let i = choose|i: int| 0 <= i < sel.len() && sel[i] == k;
            ord.lemma_filter_pred(pred, i);
        }
        if is_substring(q, search_field(rs[k], qm)) {
            assert(ord.contains(k));
            let w = choose|w: int| 0 <= w < ord.len() && ord[w] == k;
            ord.lemma_filter_contains(pred, w);
        }
    }
    if q.len() == 0 {
        assert forall|i: int| 0 <= i < ord.len() implies pred(#[trigger] ord[i]) by {
            let h = search_field(rs[ord[i]], qm);
            assert(h.subrange(0, 0 + q.len() as int) =~= q);
            assert(is_substring(q, h));
            assert(pred(ord[i]) == is_substring(q, h));
        }
        lemma_filter_keeps_all(ord, pred);
    }
}

/// Running a query twice on the same records and inputs gives the same
/// result: any two stable sorts of the records, filtered by the same search,
/// agree with each other and with `selection`.
pub proof fn lemma_query_repeatable(
    rs: Seq<RecordView>,
    q: Seq<char>,
    qm: QueryMode,
    m: SortMode,
    o: SortOrd,
    a: Seq<int>,
    b: Seq<int>,
)
    requires
        is_stable_order(rs, m, o, a),
        is_stable_order(rs, m, o, b),
    ensures
        a.filter(keeps(rs, q, qm)) == b.filter(keeps(rs, q, qm)),
        a.filter(keeps(rs, q, qm)) == selection(rs, q, qm, m, o),
{
    lemma_sorted_order_is(rs, m, o, a);
    lemma_sorted_order_is(rs, m, o, b);
}

fn occurs_at(h: &Vec<char>, n: &Vec<char>, i: usize) -> (r: bool)
    requires
        i + n@.len() <= h@.len(),
    ensures
        r == (h@.subrange(i as int, i + n@.len()) == n@),
{
    let hl = h.len();
    let mut j: usize = 0;
    let mut same = true;
    while same && j < n.len()
        invariant
            hl == h@.len(),
            i + n@.len() <= hl,
            j <= n@.len(),
            forall|t: int| 0 <= t < j ==> h@[i + t] == n@[t],
            !same ==> j < n@.len() && h@[i + j] != n@[j as int],
        decreases n@.len() - j + if same { 1int } else { 0int },
    {
        if h[i + j] == n[j] {
            j += 1;
        } else {
            same = false;
        }
    }
    if same {
        assert(h@.subrange(i as int, i + n@.len()) =~= n@);
        true
    } else {
        assert(h@.subrange(i as int, i + n@.len())[j as int] != n@[j as int]);
        false
    }
}

/// Whether `n` occurs in `h` as a contiguous run of characters.
pub fn has_substring(h: &Vec<char>, n: &Vec<char>) -> (r: bool)
    ensures
        r == is_substring(n@, h@),
{
    if n.len() > h.len() {
        return false;
    }
    let last = h.len() - n.len();
    let mut i: usize = 0;
    loop
        invariant
            last == h@.len() - n@.len(),
            i <= last,
            forall|t: int| 0 <= t < i ==> #[trigger] h@.subrange(t, t + n@.len()) != n@,
        decreases last - i,
    {
        if occurs_at(h, n, i) {
            return true;
        }
        if i == last {
            return false;
        }
        i += 1;
    }
}

fn field_chars(c: &Client, m: QueryMode) -> (r: Vec<char>)
    ensures
        r@ == search_field(c@, m),
{
    match m {
        QueryMode::FirstName => chars_of(c.prenume.as_str()),
        QueryMode::LastName => chars_of(c.nume.as_str()),
        QueryMode::PhoneNumber => chars_of(c.nr_telefon.as_str()),
        QueryMode::Address => chars_of(c.adresa.as_str()),
    }
}

/// The display row of a record.
pub fn display_row(c: &Client) -> (r: Vec<String>)
    ensures
        texts(r@) == row_of(c@),
{
    let mut r: Vec<String> = Vec::new();
    r.push(decimal_string(c.nr_ordine));
    r.push(c.prenume.clone());
    r.push(c.nume.clone());
    r.push(c.nr_telefon.clone());
    r.push(c.adresa.clone());
    assert(texts(r@) =~= row_of(c@));
    r
}

impl BazaDate {
    /// The positions (from 0, in iteration order) of the records that the
    /// query shows, in display order.
    pub fn query_positions(
        &self,
        query: &str,
        query_mode: QueryMode,
        mode: SortMode,
        dir: SortOrd,
    ) -> (r: Vec<usize>)
        ensures
            ints(r@) == selection(self.records(), query@, query_mode, mode, dir),
            forall|i: int| 0 <= i < r@.len() ==> #[trigger] r@[i] < self.clienti@.len(),
    {
        let ghost rs = self.records();
        let ghost pred = keeps(rs, query@, query_mode);
        let ord = sort_order(&self.clienti, mode, dir);
        let q = chars_of(query);
        let mut out: Vec<usize> = Vec::new();
        let mut p: usize = 0;
        assert(ints(ord@).take(0).filter(pred) =~= Seq::<int>::empty()) by {
            reveal(Seq::filter);
        }
        while p < ord.len()
            invariant
                rs == self.records(),
                pred == keeps(rs, query@, query_mode),
                q@ == query@,
                is_stable_order(rs, mode, dir, ints(ord@)),
                p <= ord@.len(),
                ints(out@) == ints(ord@).take(p as int).filter(pred),
                forall|i: int| 0 <= i < out@.len() ==> #[trigger] out@[i] < self.clienti@.len(),
            decreases ord@.len() - p,
        {
            let k = ord[p];
            assert(ints(ord@)[p as int] == k as int);
            let f = field_chars(&self.clienti[k], query_mode);
            let keep = has_substring(&f, &q);
            assert(ints(ord@).take(p + 1) =~= ints(ord@).take(p as int).push(k as int));
            proof {
                ints(ord@).take(p as int).lemma_filter_push(k as int, pred);
            }
            let ghost out0 = out@;
            if keep {
                out.push(k);
                assert(ints(out@) =~= ints(out0).push(k as int));
            }
            p += 1;
        }
        assert(ints(ord@).take(p as int) =~= ints(ord@));
        out
    }

    /// The rows that the query shows: the records sorted stably by `mode` in
    /// direction `dir`, those whose `query_mode` field contains `query` (all of
    /// them when `query` is empty), each as ordinal, first name, last name,
    /// phone and address.
    pub fn query_db(
        &self,
        query: &str,
        query_mode: QueryMode,
        mode: SortMode,
        dir: SortOrd,
    ) -> (r: Vec<Vec<String>>)
        ensures
            rows_view(r@) == query_rows(self.records(), query@, query_mode, mode, dir),
    {
        let pos = self.query_positions(query, query_mode, mode, dir);
        let ghost sel = selection(self.records(), query@, query_mode, mode, dir);
        let mut rows: Vec<Vec<String>> = Vec::new();
        let mut i: usize = 0;
        while i < pos.len()
            invariant
                ints(pos@) == sel,
                forall|j: int| 0 <= j < pos@.len() ==> #[trigger] pos@[j] < self.clienti@.len(),
                i <= pos@.len(),
                rows_view(rows@) == sel.take(i as int).map_values(
                    |k: int| row_of(self.records()[k]),
                ),
            decreases pos@.len() - i,
        {
            let k = pos[i];
            let row = display_row(&self.clienti[k]);
            let ghost rows0 = rows@;
            rows.push(row);
            assert(sel[i as int] == k as int);
            assert(rows_view(rows@) =~= rows_view(rows0).push(row_of(self.records()[k as int])));
            assert(rows_view(rows@) =~= sel.take(i + 1).map_values(
                |k: int| row_of(self.records()[k]),
            ));
            i += 1;
        }
        assert(sel.take(i as int) =~= sel);
        rows
    }
}

} // verus!
