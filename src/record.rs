//! One client record and its mathematical model.
use vstd::prelude::*;

verus! {

/// What a record holds: its ordinal and its four text fields.
pub struct RecordView {
    pub ordinal: nat,
    pub last_name: Seq<char>,
    pub first_name: Seq<char>,
    pub phone: Seq<char>,
    pub address: Seq<char>,
}

/// A client record. `nume` is the last name, `prenume` the first name,
/// `nr_telefon` the phone number and `adresa` the address; `nr_ordine` is the
/// ordinal that the store assigned to it.
#[derive(Debug)]
pub struct Client {
    pub nr_ordine: u64,
    pub nume: String,
    pub prenume: String,
    pub nr_telefon: String,
    pub adresa: String,
}

impl View for Client {
    type V = RecordView;

    open spec fn view(&self) -> RecordView {
        RecordView {
            ordinal: self.nr_ordine as nat,
            last_name: self.nume@,
            first_name: self.prenume@,
            phone: self.nr_telefon@,
            address: self.adresa@,
        }
    }
}

impl Clone for Client {
    fn clone(&self) -> (r: Self)
        ensures
            r@ == self@,
    {
        Client {
            nr_ordine: self.nr_ordine,
            nume: self.nume.clone(),
            prenume: self.prenume.clone(),
            nr_telefon: self.nr_telefon.clone(),
            adresa: self.adresa.clone(),
        }
    }
}

impl Client {
    /// A record with ordinal 0 and four empty fields.
    pub fn new() -> (r: Self)
        ensures
            r@ == (RecordView {
                ordinal: 0,
                last_name: Seq::empty(),
                first_name: Seq::empty(),
                phone: Seq::empty(),
                address: Seq::empty(),
            }),
    {
        Client {
            nr_ordine: 0,
            nume: String::new(),
            prenume: String::new(),
            nr_telefon: String::new(),
            adresa: String::new(),
        }
    }
}

/// The models of a sequence of records, in order.
pub open spec fn views_of(cs: Seq<Client>) -> Seq<RecordView> {
    cs.map_values(|c: Client| c@)
}

} // verus!
