//! The record store: records in insertion order and the ordinal counter.
use vstd::prelude::*;
use crate::record::{views_of, Client, RecordView};

verus! {

/// Returned when a position names no record of the store.
#[derive(Debug, Clone, Copy, PartialEq, Eq, Structural)]
pub struct OutOfRange {
    pub position: usize,
    pub len: usize,
}

/// The store of client records. `clienti` holds the records in insertion
/// order; `top` is the highest ordinal ever assigned (0 when none was), so
/// the next record inserted gets `top + 1`.
#[derive(Debug)]
pub struct BazaDate {
    pub clienti: Vec<Client>,
    pub top: u64,
}

impl BazaDate {
    /// The models of the records, in iteration order.
    pub open spec fn records(&self) -> Seq<RecordView> {
        views_of(self.clienti@)
    }

    /// Ordinals are at least 1, never above `top`, and increase strictly in
    /// iteration order (so no two records share one).
    pub open spec fn wf(&self) -> bool {
        &&& forall|i: int|
            0 <= i < self.clienti@.len() ==> 1 <= #[trigger] self.clienti@[i].nr_ordine
                <= self.top
        &&& forall|i: int, j: int|
            0 <= i < j < self.clienti@.len() ==> self.clienti@[i].nr_ordine
                < self.clienti@[j].nr_ordine
    }

    /// An empty store whose first record will get ordinal 1.
    pub fn new() -> (r: Self)
        ensures
            r.wf(),
            r.records() == Seq::<RecordView>::empty(),
            r.top == 0,
    {
        let r = BazaDate { clienti: Vec::new(), top: 0 };
        assert(r.records() =~= Seq::<RecordView>::empty());
        r
    }

    /// A copy of the records, in iteration order.
    pub fn all(&self) -> (r: Vec<Client>)
        ensures
            views_of(r@) == self.records(),
    {
        let mut r: Vec<Client> = Vec::new();
        let mut i: usize = 0;
        while i < self.clienti.len()
            invariant
                i <= self.clienti@.len(),
                views_of(r@) == views_of(self.clienti@.take(i as int)),
            decreases self.clienti@.len() - i,
        {
            let c = self.clienti[i].clone();
            assert(c@ == self.clienti@[i as int]@);
            let ghost r0 = r@;
            r.push(c);
            i += 1;
            assert(views_of(r@) =~= views_of(r0).push(c@));
            assert(views_of(self.clienti@.take(i as int)) =~= views_of(
                self.clienti@.take(i - 1),
            ).push(c@));
        }
        assert(self.clienti@.take(i as int) =~= self.clienti@);
        r
    }

    /// Removes the record at `position` (counted from 0 in iteration order).
    /// The others keep their order and ordinals, and `top` does not change.
    pub fn delete_record(&mut self, position: usize) -> (r: Result<(), OutOfRange>)
        ensures
            r is Ok <==> position < old(self).clienti@.len(),
            r is Ok ==> final(self).records() == old(self).records().remove(position as int),
            r matches Err(e) ==> e == (OutOfRange {
                position,
                len: old(self).clienti@.len() as usize,
            }),
            r is Err ==> final(self).records() == old(self).records(),
            final(self).top == old(self).top,
            old(self).wf() ==> final(self).wf(),
    {
        let ghost wf0 = self.wf();
        if position < self.clienti.len() {
            let ghost before = self.clienti@;
            self.clienti.remove(position);
            assert(self.records() =~= views_of(before).remove(position as int));
            proof {
                if wf0 {
                    assert forall|i: int, j: int|
                        0 <= i < j < self.clienti@.len() implies self.clienti@[i].nr_ordine
                        < self.clienti@[j].nr_ordine by {
                        let bi = if i < position { i } else { i + 1 };
                        let bj = if j < position { j } else { j + 1 };
                        assert(self.clienti@[i] == before[bi]);
                        assert(self.clienti@[j] == before[bj]);
                    }
                    assert forall|i: int| 0 <= i < self.clienti@.len() implies 1
                        <= #[trigger] self.clienti@[i].nr_ordine <= self.top by {
                        let bi = if i < position { i } else { i + 1 };
                        assert(self.clienti@[i] == before[bi]);
                    }
                }
            }
            Ok(())
        } else {
            Err(OutOfRange { position, len: self.clienti.len() })
        }
    }

    /// Appends a record with the given fields and the next ordinal,
    /// `top + 1`, which becomes the new `top`; returns a copy of it.
    pub fn insert_record(
        &mut self,
        nume: String,
        prenume: String,
        nr_telefon: String,
        adresa: String,
    ) -> (r: Client)
        requires
            old(self).top < u64::MAX,
        ensures
            r@ == (RecordView {
                ordinal: (old(self).top + 1) as nat,
                last_name: nume@,
                first_name: prenume@,
                phone: nr_telefon@,
                address: adresa@,
            }),
            final(self).records() == old(self).records().push(r@),
            final(self).top == old(self).top + 1,
            old(self).wf() ==> final(self).wf(),
    {
        let c = Client { nr_ordine: self.top + 1, nume, prenume, nr_telefon, adresa };
        let r = c.clone();
        let ghost before = self.clienti@;
        self.clienti.push(c);
        self.top = self.top + 1;
        assert(self.records() =~= views_of(before).push(r@));
        assert(forall|i: int| 0 <= i < before.len() ==> self.clienti@[i] == before[i]);
        r
    }
}

impl Default for BazaDate {
    /// An empty store, as `new` makes it.
    fn default() -> (r: Self)
        ensures
            r.wf(),
            r.records() == Seq::<RecordView>::empty(),
            r.top == 0,
    {
        BazaDate::new()
    }
}

impl Clone for BazaDate {
    fn clone(&self) -> (r: Self)
        ensures
            r.records() == self.records(),
            r.top == self.top,
    {
        BazaDate { clienti: self.all(), top: self.top }
    }
}

} // verus!
