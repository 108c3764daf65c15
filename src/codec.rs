//! The text format: four lines per record (last name, first name, phone,
//! address), each ended by a newline. Trailing carriage returns of a line are
//! dropped on reading. Text after the last newline, and a last group of fewer
//! than four lines, are ignored. Ordinals are not written; reading assigns
//! 1, 2, ... in file order.
use vstd::prelude::*;
use vstd::string::StringExecFns;
use crate::record::{views_of, Client, RecordView};
use crate::store::BazaDate;
use crate::text::{chars_of, push_char, string_of};

verus! {

/// After reading `t` from its start: the lines ended so far, and the text of
/// the line not yet ended.
pub open spec fn scan(t: Seq<char>) -> (Seq<Seq<char>>, Seq<char>)
    decreases t.len(),
{
    if t.len() == 0 {
        (Seq::empty(), Seq::empty())
    } else {
        let (ls, cur) = scan(t.drop_last());
        if t.last() == '\n' {
            (ls.push(cur), Seq::empty())
        } else {
            (ls, cur.push(t.last()))
        }
    }
}

/// The newline-terminated lines of `t`, without their newlines.
pub open spec fn lines(t: Seq<char>) -> Seq<Seq<char>> {
    scan(t).0
}

/// `l` without its trailing carriage returns.
pub open spec fn strip_cr(l: Seq<char>) -> Seq<char>
    decreases l.len(),
{
    if l.len() > 0 && l.last() == '\r' {
        strip_cr(l.drop_last())
    } else {
        l
    }
}

/// The records that the text `t` holds, with ordinals 1, 2, ...
pub open spec fn decode(t: Seq<char>) -> Seq<RecordView> {
    let ls = lines(t);
    Seq::new(
        (ls.len() / 4) as nat,
        |k: int|
            RecordView {
                ordinal: (k + 1) as nat,
                last_name: strip_cr(ls[4 * k]),
                first_name: strip_cr(ls[4 * k + 1]),
                phone: strip_cr(ls[4 * k + 2]),
                address: strip_cr(ls[4 * k + 3]),
            },
    )
}

/// The four lines that stand for one record.
pub open spec fn record_text(r: RecordView) -> Seq<char> {
    r.last_name.push('\n') + r.first_name.push('\n') + r.phone.push('\n') + r.address.push(
        '\n',
    )
}

/// The text of a sequence of records, in order.
pub open spec fn encode(rs: Seq<RecordView>) -> Seq<char>
    decreases rs.len(),
{
    if rs.len() == 0 {
        Seq::empty()
    } else {
        encode(rs.drop_last()) + record_text(rs.last())
    }
}

/// A field that reads back as written: no newline in it, and no carriage
/// return at its end.
pub open spec fn storable(f: Seq<char>) -> bool {
    &&& !f.contains('\n')
    &&& (f.len() == 0 || f.last() != '\r')
}

/// Every text field of the record is storable.
pub open spec fn storable_record(r: RecordView) -> bool {
    storable(r.last_name) && storable(r.first_name) && storable(r.phone) && storable(r.address)
}

proof fn lemma_lines_len(t: Seq<char>)
    ensures
        lines(t).len() <= t.len(),
    decreases t.len(),
{
    if t.len() > 0 {
        lemma_lines_len(t.drop_last());
    }
}

/// The string of `buf` without its trailing carriage returns.
fn line_string(buf: &Vec<char>) -> (r: String)
    ensures
        r@ == strip_cr(buf@),
{
    let mut e: usize = buf.len();
    assert(buf@.take(e as int) =~= buf@);
    while e > 0 && buf[e - 1] == '\r'
        invariant
            e <= buf@.len(),
            strip_cr(buf@.take(e as int)) == strip_cr(buf@),
        decreases e,
    {
        assert(buf@.take(e as int).drop_last() =~= buf@.take(e - 1));
        e -= 1;
    }
    let mut kept = buf.clone();
    kept.truncate(e);
    assert(kept@ =~= buf@.take(e as int));
    string_of(&kept)
}

/// Builds the store that the text holds: one record for each complete group
/// of four lines, with ordinals 1, 2, ... in file order, and `top` set to the
/// number of records.
pub fn create_database(file_contents: String) -> (db: BazaDate)
    ensures
        db.wf(),
        db.records() == decode(file_contents@),
        db.top == decode(file_contents@).len(),
{
    let cs = chars_of(file_contents.as_str());
    let mut db = BazaDate::new();
    let mut buf: Vec<char> = Vec::new();
    let mut count: usize = 0;
    let mut f0 = String::new();
    let mut f1 = String::new();
    let mut f2 = String::new();
    let mut i: usize = 0;
    assert(cs@.take(0) =~= Seq::<char>::empty());
    assert(db.records() =~= decode(cs@.take(0)));
    while i < cs.len()
        invariant
            cs@ == file_contents@,
            i <= cs@.len(),
            buf@ == scan(cs@.take(i as int)).1,
            count as int == lines(cs@.take(i as int)).len() % 4,
            db.records() == decode(cs@.take(i as int)),
            db.top as int == db.clienti@.len(),
            count > 0 ==> f0@ == strip_cr(
                lines(cs@.take(i as int))[lines(cs@.take(i as int)).len() - count],
            ),
            count > 1 ==> f1@ == strip_cr(
                lines(cs@.take(i as int))[lines(cs@.take(i as int)).len() - count + 1],
            ),
            count > 2 ==> f2@ == strip_cr(
                lines(cs@.take(i as int))[lines(cs@.take(i as int)).len() - count + 2],
            ),
        decreases cs@.len() - i,
    {
        let c = cs[i];
        let ghost seen = cs@.take(i as int);
        let ghost seen_next = cs@.take(i + 1);
        let ghost l0 = lines(seen);
        assert(seen_next.drop_last() =~= seen);
        assert(seen_next.last() == c);
        proof {
            lemma_lines_len(seen);
            assert(seen.len() == i);
            assert(db.records().len() == db.clienti@.len());
            assert(decode(seen).len() == lines(seen).len() / 4);
            assert(db.top < i + 1);
        }
        if c == '\n' {
            let s = line_string(&buf);
            assert(lines(seen_next) == l0.push(buf@));
            if count == 0 {
                f0 = s;
                count = 1;
            } else if count == 1 {
                f1 = s;
                count = 2;
            } else if count == 2 {
                f2 = s;
                count = 3;
            } else {
                let ghost r0 = db.records();
                let rec = Client {
                    nr_ordine: db.top + 1,
                    nume: f0,
                    prenume: f1,
                    nr_telefon: f2,
                    adresa: s,
                };
                let ghost rec_view = rec@;
                let ghost c0 = db.clienti@;
                db.clienti.push(rec);
                assert(db.clienti@ == c0.push(rec));
                assert(db.records() =~= views_of(c0).push(rec_view));
                db.top = db.top + 1;
                count = 0;
                f0 = String::new();
                f1 = String::new();
                f2 = String::new();
                proof {
                    let n = l0.len() as int;
                    let k = n / 4;
                    assert(lines(seen_next).len() == n + 1);
                    assert(4 * k == n - 3);
                    assert((n + 1) / 4 == k + 1);
                    assert(db.records() == r0.push(rec_view));
                    assert forall|j: int| 0 <= j < k implies decode(seen_next)[j] == r0[j] by {
                        assert(r0[j] == decode(seen)[j]);
                        assert(4 * j + 3 < n);
                    }
                    assert(decode(seen_next)[k] == rec_view);
                    assert(db.records() =~= decode(seen_next));
                }
            }
            buf = Vec::new();
        } else {
            buf.push(c);
        }
        i += 1;
    }
    assert(cs@.take(i as int) =~= cs@);
    assert forall|j: int| 0 <= j < db.clienti@.len() implies #[trigger] db.clienti@[j].nr_ordine
        == j + 1 by {
        assert(db.records()[j] == decode(cs@)[j]);
    }
    db
}

impl BazaDate {
    /// The text of the store: the four lines of each record, in iteration
    /// order.
    pub fn save(&self) -> (r: String)
        ensures
            r@ == encode(self.records()),
    {
        let mut r = String::new();
        let mut i: usize = 0;
        assert(views_of(self.clienti@.take(0)) =~= Seq::<RecordView>::empty());
        while i < self.clienti.len()
            invariant
                i <= self.clienti@.len(),
                r@ == encode(views_of(self.clienti@.take(i as int))),
            decreases self.clienti@.len() - i,
        {
            let c = &self.clienti[i];
            let ghost r0 = r@;
            r.append(c.nume.as_str());
            push_char(&mut r, '\n');
            r.append(c.prenume.as_str());
            push_char(&mut r, '\n');
            r.append(c.nr_telefon.as_str());
            push_char(&mut r, '\n');
            r.append(c.adresa.as_str());
            push_char(&mut r, '\n');
            assert(r@ =~= r0 + record_text(c@));
            assert(views_of(self.clienti@.take(i + 1)).drop_last() =~= views_of(
                self.clienti@.take(i as int),
            ));
            i += 1;
        }
        assert(self.clienti@.take(i as int) =~= self.clienti@);
        r
    }
}

proof fn lemma_scan_plain(t: Seq<char>, l: Seq<char>)
    requires
        !l.contains('\n'),
    ensures
        scan(t + l) == (scan(t).0, scan(t).1 + l),
    decreases l.len(),
{
    if l.len() == 0 {
        assert(t + l =~= t);
        assert(scan(t).1 + l =~= scan(t).1);
    } else {
        let l0 = l.drop_last();
        assert((t + l).drop_last() =~= t + l0);
        assert(!l0.contains('\n')) by {
            if l0.contains('\n') {
                let i = choose|i: int| 0 <= i < l0.len() && l0[i] == '\n';
                assert(l[i] == '\n');
            }
        }
        lemma_scan_plain(t, l0);
        assert((t + l).last() == l.last());
        assert(l.last() != '\n') by {
            if l.last() == '\n' {
                assert(l[l.len() - 1] == '\n');
            }
        }
        assert((scan(t).1 + l0).push(l.last()) =~= scan(t).1 + l);
    }
}

proof fn lemma_scan_line(t: Seq<char>, l: Seq<char>)
    requires
        scan(t).1 == Seq::<char>::empty(),
        !l.contains('\n'),
    ensures
        scan(t + l.push('\n')) == (scan(t).0.push(l), Seq::<char>::empty()),
{
    lemma_scan_plain(t, l);
    assert((t + l.push('\n')).drop_last() =~= t + l);
    assert((t + l.push('\n')).last() == '\n');
    assert(scan(t).1 + l =~= l);
}

proof fn lemma_encode_lines(rs: Seq<RecordView>)
    requires
        forall|k: int| 0 <= k < rs.len() ==> storable_record(#[trigger] rs[k]),
    ensures
        scan(encode(rs)).1 == Seq::<char>::empty(),
        lines(encode(rs)).len() == 4 * rs.len(),
        forall|k: int|
            0 <= k < rs.len() ==> {
                &&& lines(encode(rs))[4 * k] == (#[trigger] rs[k]).last_name
                &&& lines(encode(rs))[4 * k + 1] == rs[k].first_name
                &&& lines(encode(rs))[4 * k + 2] == rs[k].phone
                &&& lines(encode(rs))[4 * k + 3] == rs[k].address
            },
    decreases rs.len(),
{
    if rs.len() == 0 {
        assert(scan(encode(rs)) == (Seq::<Seq<char>>::empty(), Seq::<char>::empty()));
    } else {
        let p = rs.drop_last();
        let r = rs.last();
        assert forall|k: int| 0 <= k < p.len() implies storable_record(#[trigger] p[k]) by {
            assert(p[k] == rs[k]);
        }
        lemma_encode_lines(p);
        assert(storable_record(rs[rs.len() - 1]));
        let t0 = encode(p);
        let t1 = t0 + r.last_name.push('\n');
        let t2 = t1 + r.first_name.push('\n');
        let t3 = t2 + r.phone.push('\n');
        let t4 = t3 + r.address.push('\n');
        lemma_scan_line(t0, r.last_name);
        lemma_scan_line(t1, r.first_name);
        lemma_scan_line(t2, r.phone);
        lemma_scan_line(t3, r.address);
        assert(encode(rs) =~= t4);
        let l0 = lines(t0);
        assert(lines(encode(rs)) == l0.push(r.last_name).push(r.first_name).push(r.phone).push(
            r.address,
        ));
        assert forall|k: int| 0 <= k < rs.len() implies {
            &&& lines(encode(rs))[4 * k] == (#[trigger] rs[k]).last_name
            &&& lines(encode(rs))[4 * k + 1] == rs[k].first_name
            &&& lines(encode(rs))[4 * k + 2] == rs[k].phone
            &&& lines(encode(rs))[4 * k + 3] == rs[k].address
        } by {
            if k < p.len() {
                assert(p[k] == rs[k]);
            }
        }
    }
}

/// Reading back what was written gives the same records in the same order,
/// with the ordinals renumbered 1, 2, ..., provided that no field holds a
/// newline or ends with a carriage return. So `create_database` applied to
/// the text of `save` rebuilds the store with dense ordinals.
pub proof fn lemma_round_trip(rs: Seq<RecordView>)
    requires
        forall|k: int| 0 <= k < rs.len() ==> storable_record(#[trigger] rs[k]),
    ensures
        decode(encode(rs)).len() == rs.len(),
        forall|k: int|
            0 <= k < rs.len() ==> #[trigger] decode(encode(rs))[k] == (RecordView {
                ordinal: (k + 1) as nat,
                last_name: rs[k].last_name,
                first_name: rs[k].first_name,
                phone: rs[k].phone,
                address: rs[k].address,
            }),
{
    lemma_encode_lines(rs);
    assert forall|k: int| 0 <= k < rs.len() implies #[trigger] decode(encode(rs))[k] == (
    RecordView {
        ordinal: (k + 1) as nat,
        last_name: rs[k].last_name,
        first_name: rs[k].first_name,
        phone: rs[k].phone,
        address: rs[k].address,
    }) by {
        assert(storable_record(rs[k]));
    }
}

} // verus!
