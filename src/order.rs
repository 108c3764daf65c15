//! Sort keys, the order they induce on records, and a stable sort.
use vstd::prelude::*;
use crate::record::{views_of, Client, RecordView};
use crate::text::chars_of;

verus! {

/// The field that records are sorted by.
#[derive(Debug, Clone, Copy, PartialEq, Eq, Structural)]
pub enum SortMode {
    Id,
    FirstName,
    LastName,
    PhoneNumber,
    Address,
}

/// The direction of a sort: increasing or decreasing.
#[derive(Debug, Clone, Copy, PartialEq, Eq, Structural)]
pub enum SortOrd {
    Incr,
    Decr,
}

/// Lexicographic order on texts, character by character (by code point); a
/// proper prefix comes first.
pub open spec fn lex_lt(a: Seq<char>, b: Seq<char>) -> bool
    decreases a.len(),
{
    if a.len() == 0 {
        b.len() > 0
    } else if b.len() == 0 {
        false
    } else if a[0] != b[0] {
        a[0] < b[0]
    } else {
        lex_lt(a.drop_first(), b.drop_first())
    }
}

/// The text that a text sort mode reads (empty for `Id`).
pub open spec fn text_key(r: RecordView, m: SortMode) -> Seq<char> {
    match m {
        SortMode::Id => Seq::empty(),
        SortMode::FirstName => r.first_name,
        SortMode::LastName => r.last_name,
        SortMode::PhoneNumber => r.phone,
        SortMode::Address => r.address,
    }
}

/// `x`'s key is smaller than `y`'s: ordinals by value, texts lexicographically.
pub open spec fn key_lt(x: RecordView, y: RecordView, m: SortMode) -> bool {
    if m is Id {
        x.ordinal < y.ordinal
    } else {
        lex_lt(text_key(x, m), text_key(y, m))
    }
}

/// `x` and `y` have the same key.
pub open spec fn key_eq(x: RecordView, y: RecordView, m: SortMode) -> bool {
    if m is Id {
        x.ordinal == y.ordinal
    } else {
        text_key(x, m) == text_key(y, m)
    }
}

/// `x`'s key comes strictly before `y`'s in direction `o`.
pub open spec fn precedes(x: RecordView, y: RecordView, m: SortMode, o: SortOrd) -> bool {
    match o {
        SortOrd::Incr => key_lt(x, y, m),
        SortOrd::Decr => key_lt(y, x, m),
    }
}

/// In a stable sort of `rs`, the record at position `i` comes before the one
/// at `j`: its key comes first, or the keys are equal and `i < j`.
pub open spec fn goes_before(rs: Seq<RecordView>, m: SortMode, o: SortOrd, i: int, j: int) -> bool {
    precedes(rs[i], rs[j], m, o) || (key_eq(rs[i], rs[j], m) && i < j)
}

/// `ord` lists every position of `rs` once, in stable sorted order.
pub open spec fn is_stable_order(
    rs: Seq<RecordView>,
    m: SortMode,
    o: SortOrd,
    ord: Seq<int>,
) -> bool {
    &&& ord.len() == rs.len()
    &&& forall|p: int| 0 <= p < ord.len() ==> 0 <= #[trigger] ord[p] < rs.len()
    &&& forall|k: int| 0 <= k < rs.len() ==> #[trigger] ord.contains(k)
    &&& forall|p: int, q: int|
        0 <= p < q < ord.len() ==> #[trigger] goes_before(rs, m, o, ord[p], ord[q])
}

/// The positions of `rs` in stable sorted order (there is exactly one such
/// order: see `lemma_stable_order_unique`).
pub open spec fn sorted_order(rs: Seq<RecordView>, m: SortMode, o: SortOrd) -> Seq<int> {
    choose|ord: Seq<int>| is_stable_order(rs, m, o, ord)
}

/// Positions as integers.
pub open spec fn ints(s: Seq<usize>) -> Seq<int> {
    s.map_values(|x: usize| x as int)
}

proof fn lemma_lex_irrefl(a: Seq<char>)
    ensures
        !lex_lt(a, a),
    decreases a.len(),
{
    if a.len() > 0 {
        lemma_lex_irrefl(a.drop_first());
    }
}

proof fn lemma_lex_trans(a: Seq<char>, b: Seq<char>, c: Seq<char>)
    requires
        lex_lt(a, b),
        lex_lt(b, c),
    ensures
        lex_lt(a, c),
    decreases a.len(),
{
    if a.len() > 0 && a[0] == b[0] && b[0] == c[0] {
        lemma_lex_trans(a.drop_first(), b.drop_first(), c.drop_first());
    }
}

proof fn lemma_lex_total(a: Seq<char>, b: Seq<char>)
    requires
        a != b,
    ensures
        lex_lt(a, b) || lex_lt(b, a),
    decreases a.len(),
{
    if a.len() == 0 {
        if b.len() == 0 {
            assert(a =~= b);
        }
    } else if b.len() > 0 && a[0] == b[0] {
        if a.drop_first() == b.drop_first() {
            assert(a.drop_first().len() == a.len() - 1);
            assert(b.drop_first().len() == b.len() - 1);
            assert(a.len() == b.len());
            assert forall|i: int| 0 <= i < a.len() implies a[i] == b[i] by {
                if i > 0 {
                    assert(a[i] == a.drop_first()[i - 1]);
                    assert(b[i] == b.drop_first()[i - 1]);
                }
            }
            assert(a =~= b);
        }
        lemma_lex_total(a.drop_first(), b.drop_first());
    }
}

proof fn lemma_precedes_irrefl(x: RecordView, m: SortMode, o: SortOrd)
    ensures
        !precedes(x, x, m, o),
{
    lemma_lex_irrefl(text_key(x, m));
}

proof fn lemma_precedes_trans(x: RecordView, y: RecordView, z: RecordView, m: SortMode, o: SortOrd)
    requires
        precedes(x, y, m, o),
        precedes(y, z, m, o),
    ensures
        precedes(x, z, m, o),
{
    if !(m is Id) {
        match o {
            SortOrd::Incr => lemma_lex_trans(text_key(x, m), text_key(y, m), text_key(z, m)),
            SortOrd::Decr => lemma_lex_trans(text_key(z, m), text_key(y, m), text_key(x, m)),
        }
    }
}

proof fn lemma_precedes_total(x: RecordView, y: RecordView, m: SortMode, o: SortOrd)
    ensures
        precedes(x, y, m, o) || precedes(y, x, m, o) || key_eq(x, y, m),
{
    if !(m is Id) && text_key(x, m) != text_key(y, m) {
        lemma_lex_total(text_key(x, m), text_key(y, m));
    }
}

proof fn lemma_precedes_asym(x: RecordView, y: RecordView, m: SortMode, o: SortOrd)
    requires
        precedes(x, y, m, o),
    ensures
        !precedes(y, x, m, o),
        !key_eq(x, y, m),
{
    lemma_precedes_irrefl(x, m, o);
    if precedes(y, x, m, o) {
        lemma_precedes_trans(x, y, x, m, o);
    }
}

proof fn lemma_goes_before_irrefl(rs: Seq<RecordView>, m: SortMode, o: SortOrd, i: int)
    ensures
        !goes_before(rs, m, o, i, i),
{
    lemma_precedes_irrefl(rs[i], m, o);
}

proof fn lemma_goes_before_asym(rs: Seq<RecordView>, m: SortMode, o: SortOrd, i: int, j: int)
    requires
        goes_before(rs, m, o, i, j),
    ensures
        !goes_before(rs, m, o, j, i),
{
    if precedes(rs[i], rs[j], m, o) {
        lemma_precedes_asym(rs[i], rs[j], m, o);
    } else if precedes(rs[j], rs[i], m, o) {
        lemma_precedes_asym(rs[j], rs[i], m, o);
    }
}

/// There is at most one stable sorted order of a sequence of records: sorting
/// the same records the same way always gives the same result.
pub proof fn lemma_stable_order_unique(
    rs: Seq<RecordView>,
    m: SortMode,
    o: SortOrd,
    a: Seq<int>,
    b: Seq<int>,
)
    requires
        is_stable_order(rs, m, o, a),
        is_stable_order(rs, m, o, b),
    ensures
        a == b,
{
    lemma_unique_prefix(rs, m, o, a, b, a.len() as int);
    assert(a =~= b);
}

proof fn lemma_unique_prefix(
    rs: Seq<RecordView>,
    m: SortMode,
    o: SortOrd,
    a: Seq<int>,
    b: Seq<int>,
    p: int,
)
    requires
        is_stable_order(rs, m, o, a),
        is_stable_order(rs, m, o, b),
        0 <= p <= a.len(),
    ensures
        forall|q: int| 0 <= q < p ==> a[q] == b[q],
    decreases p,
{
    if p > 0 {
        lemma_unique_prefix(rs, m, o, a, b, p - 1);
        let x = a[p - 1];
        let y = b[p - 1];
        if x != y {
            assert(b.contains(x));
            let qb = choose|q: int| 0 <= q < b.len() && b[q] == x;
            assert(a.contains(y));
            let qa = choose|q: int| 0 <= q < a.len() && a[q] == y;
            if qb < p - 1 {
                assert(goes_before(rs, m, o, a[qb], a[p - 1]));
                lemma_goes_before_irrefl(rs, m, o, x);
            } else if qa < p - 1 {
                assert(goes_before(rs, m, o, b[qa], b[p - 1]));
                lemma_goes_before_irrefl(rs, m, o, y);
            } else {
                assert(goes_before(rs, m, o, b[p - 1], b[qb]));
                assert(goes_before(rs, m, o, a[p - 1], a[qa]));
                lemma_goes_before_asym(rs, m, o, y, x);
            }
        }
    }
}

/// In a stable sorted order, two records with equal keys keep the relative
/// order they had before sorting, whichever the direction.
pub proof fn lemma_equal_keys_keep_order(
    rs: Seq<RecordView>,
    m: SortMode,
    o: SortOrd,
    ord: Seq<int>,
    p: int,
    q: int,
)
    requires
        is_stable_order(rs, m, o, ord),
        0 <= p < ord.len(),
        0 <= q < ord.len(),
        key_eq(rs[ord[p]], rs[ord[q]], m),
    ensures
        p < q <==> ord[p] < ord[q],
{
    if p < q {
        assert(goes_before(rs, m, o, ord[p], ord[q]));
        if precedes(rs[ord[p]], rs[ord[q]], m, o) {
            lemma_precedes_asym(rs[ord[p]], rs[ord[q]], m, o);
        }
    } else if q < p {
        assert(goes_before(rs, m, o, ord[q], ord[p]));
        if precedes(rs[ord[q]], rs[ord[p]], m, o) {
            lemma_precedes_asym(rs[ord[q]], rs[ord[p]], m, o);
        }
    }
}

/// Two records with different keys stand in opposite orders in the
/// increasing and in the decreasing stable sort.
pub proof fn lemma_distinct_keys_reverse(
    rs: Seq<RecordView>,
    m: SortMode,
    up: Seq<int>,
    down: Seq<int>,
    pa: int,
    qa: int,
    pd: int,
    qd: int,
)
    requires
        is_stable_order(rs, m, SortOrd::Incr, up),
        is_stable_order(rs, m, SortOrd::Decr, down),
        0 <= pa < up.len(),
        0 <= qa < up.len(),
        0 <= pd < down.len(),
        0 <= qd < down.len(),
        up[pa] == down[pd],
        up[qa] == down[qd],
        !key_eq(rs[up[pa]], rs[up[qa]], m),
    ensures
        pa < qa <==> qd < pd,
{
    let x = rs[up[pa]];
    let y = rs[up[qa]];
    if pa == qa || pd == qd {
        assert(key_eq(x, x, m));
    }
    if pa < qa {
        assert(goes_before(rs, m, SortOrd::Incr, up[pa], up[qa]));
        if pd < qd {
            assert(goes_before(rs, m, SortOrd::Decr, down[pd], down[qd]));
            lemma_precedes_asym(x, y, m, SortOrd::Incr);
        }
    }
    if qd < pd {
        assert(goes_before(rs, m, SortOrd::Decr, down[qd], down[pd]));
        if qa < pa {
            assert(goes_before(rs, m, SortOrd::Incr, up[qa], up[pa]));
            lemma_precedes_asym(y, x, m, SortOrd::Incr);
        }
    }
}

/// Lexicographic comparison of two character vectors.
fn lex_less(a: &Vec<char>, b: &Vec<char>) -> (r: bool)
    ensures
        r == lex_lt(a@, b@),
{
    let mut i: usize = 0;
    assert(a@.skip(0) =~= a@);
    assert(b@.skip(0) =~= b@);
    while i < a.len() && i < b.len() && a[i] == b[i]
        invariant
            i <= a@.len(),
            i <= b@.len(),
            lex_lt(a@, b@) == lex_lt(a@.skip(i as int), b@.skip(i as int)),
        decreases a@.len() - i,
    {
        assert(a@.skip(i as int).drop_first() =~= a@.skip(i + 1));
        assert(b@.skip(i as int).drop_first() =~= b@.skip(i + 1));
        i += 1;
    }
    if i == a.len() {
        i < b.len()
    } else if i == b.len() {
        false
    } else {
        a[i] < b[i]
    }
}

/// The sort key text of `c` under a text sort mode.
fn text_key_of(c: &Client, m: SortMode) -> (r: Vec<char>)
    ensures
        r@ == text_key(c@, m),
{
    match m {
        SortMode::Id => Vec::new(),
        SortMode::FirstName => chars_of(c.prenume.as_str()),
        SortMode::LastName => chars_of(c.nume.as_str()),
        SortMode::PhoneNumber => chars_of(c.nr_telefon.as_str()),
        SortMode::Address => chars_of(c.adresa.as_str()),
    }
}

fn precedes_at(
    cs: &Vec<Client>,
    keys: &Vec<Vec<char>>,
    m: SortMode,
    o: SortOrd,
    i: usize,
    j: usize,
) -> (r: bool)
    requires
        i < cs@.len(),
        j < cs@.len(),
        keys@.len() == cs@.len(),
        forall|k: int| 0 <= k < cs@.len() ==> (#[trigger] keys@[k])@ == text_key(cs@[k]@, m),
    ensures
        r == precedes(cs@[i as int]@, cs@[j as int]@, m, o),
{
    let (a, b) = match o {
        SortOrd::Incr => (i, j),
        SortOrd::Decr => (j, i),
    };
    match m {
        SortMode::Id => cs[a].nr_ordine < cs[b].nr_ordine,
        _ => lex_less(&keys[a], &keys[b]),
    }
}

/// The positions of `cs` (from 0) in stable sorted order: by the key of `m`
/// in direction `o`, records with equal keys in the order they had in `cs`.
pub fn sort_order(cs: &Vec<Client>, m: SortMode, o: SortOrd) -> (r: Vec<usize>)
    ensures
        is_stable_order(views_of(cs@), m, o, ints(r@)),
        ints(r@) == sorted_order(views_of(cs@), m, o),
{
    let ghost rs = views_of(cs@);
    let mut keys: Vec<Vec<char>> = Vec::new();
    let mut k: usize = 0;
    while k < cs.len()
        invariant
            k <= cs@.len(),
            keys@.len() == k,
            forall|j: int| 0 <= j < k ==> (#[trigger] keys@[j])@ == text_key(cs@[j]@, m),
        decreases cs@.len() - k,
    {
        keys.push(text_key_of(&cs[k], m));
        k += 1;
    }
    let mut ord: Vec<usize> = Vec::new();
    let mut i: usize = 0;
    while i < cs.len()
        invariant
            rs == views_of(cs@),
            i <= cs@.len(),
            keys@.len() == cs@.len(),
            forall|j: int| 0 <= j < cs@.len() ==> (#[trigger] keys@[j])@ == text_key(cs@[j]@, m),
            ord@.len() == i,
            forall|p: int| 0 <= p < i ==> #[trigger] ord@[p] < i,
            forall|j: int| 0 <= j < i ==> #[trigger] ints(ord@).contains(j),
            forall|p: int, q: int|
                0 <= p < q < i ==> #[trigger] goes_before(
                    rs,
                    m,
                    o,
                    ord@[p] as int,
                    ord@[q] as int,
                ),
        decreases cs@.len() - i,
    {
        let mut p: usize = 0;
        while p < ord.len() && !precedes_at(cs, &keys, m, o, i, ord[p])
            invariant
                rs == views_of(cs@),
                i < cs@.len(),
                keys@.len() == cs@.len(),
                forall|j: int|
                    0 <= j < cs@.len() ==> (#[trigger] keys@[j])@ == text_key(cs@[j]@, m),
                ord@.len() == i,
                forall|p: int| 0 <= p < i ==> #[trigger] ord@[p] < i,
                p <= ord@.len(),
                forall|q: int| 0 <= q < p ==> !precedes(rs[i as int], rs[#[trigger] ord@[q] as int], m, o),
            decreases ord@.len() - p,
        {
            p += 1;
        }
        let ghost old_ord = ord@;
        proof {
            assert forall|q: int| p <= q < old_ord.len() implies precedes(
                rs[i as int],
                rs[#[trigger] old_ord[q] as int],
                m,
                o,
            ) by {
                if q > p {
                    assert(goes_before(rs, m, o, old_ord[p as int] as int, old_ord[q] as int));
                    if precedes(rs[old_ord[p as int] as int], rs[old_ord[q] as int], m, o) {
                        lemma_precedes_trans(
                            rs[i as int],
                            rs[old_ord[p as int] as int],
                            rs[old_ord[q] as int],
                            m,
                            o,
                        );
                    }
                }
            }
            assert forall|q: int| 0 <= q < p implies goes_before(
                rs,
                m,
                o,
                #[trigger] old_ord[q] as int,
                i as int,
            ) by {
                lemma_precedes_total(rs[i as int], rs[old_ord[q] as int], m, o);
            }
        }
        ord.insert(p, i);
        proof {
            let n = ord@;
            old_ord.insert_ensures(p as int, i);
            assert forall|a: int, b: int| 0 <= a < b < i + 1 implies #[trigger] goes_before(
                rs,
                m,
                o,
                n[a] as int,
                n[b] as int,
            ) by {
                if b < p {
                    assert(n[a] == old_ord[a] && n[b] == old_ord[b]);
                } else if b == p {
                    assert(n[a] == old_ord[a]);
                } else if a < p {
                    assert(n[a] == old_ord[a] && n[b] == old_ord[b - 1]);
                    assert(goes_before(rs, m, o, old_ord[a] as int, i as int));
                    assert(old_ord[a] < i);
                    if precedes(rs[old_ord[a] as int], rs[i as int], m, o) {
                        lemma_precedes_trans(
                            rs[old_ord[a] as int],
                            rs[i as int],
                            rs[old_ord[b - 1] as int],
                            m,
                            o,
                        );
                    }
                } else if a == p {
                    assert(n[b] == old_ord[b - 1]);
                } else {
                    assert(n[a] == old_ord[a - 1] && n[b] == old_ord[b - 1]);
                }
            }
            assert forall|q: int| 0 <= q < i + 1 implies #[trigger] ord@[q] < i + 1 by {
                if q < p {
                    assert(n[q] == old_ord[q]);
                } else if q > p {
                    assert(n[q] == old_ord[q - 1]);
                }
            }
            assert forall|j: int| 0 <= j < i + 1 implies #[trigger] ints(ord@).contains(j) by {
                if j == i {
                    assert(ints(n)[p as int] == j);
                } else {
                    assert(ints(old_ord).contains(j));
                    let w = choose|w: int| 0 <= w < old_ord.len() && ints(old_ord)[w] == j;
                    if w < p {
                        assert(ints(n)[w] == j);
                    } else {
                        assert(ints(n)[w + 1] == j);
                    }
                }
            }
        }
        i += 1;
    }
    proof {
        let g = ints(ord@);
        assert forall|p: int, q: int| 0 <= p < q < g.len() implies #[trigger] goes_before(
            rs,
            m,
            o,
            g[p],
            g[q],
        ) by {
            assert(goes_before(rs, m, o, ord@[p] as int, ord@[q] as int));
        }
        assert forall|p: int| 0 <= p < g.len() implies 0 <= #[trigger] g[p] < rs.len() by {
            assert(ord@[p] < i);
        }
        assert(is_stable_order(rs, m, o, g));
        lemma_stable_order_unique(rs, m, o, g, sorted_order(rs, m, o));
    }
    ord
}

} // verus!
