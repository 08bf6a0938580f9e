//! Maps keyed by ids, by barcodes and by (chromosome, position), kept in
//! `hashbrown` hash maps.
use vstd::prelude::*;

verus! {

/// A map from one id to another (an input cell id to an output cell id, say).
#[verifier::external_body]
pub struct IdMap {
    map: hashbrown::HashMap<usize, usize>,
}

/// The pairs that an `IdMap` holds.
pub uninterp spec fn id_map_contents(m: IdMap) -> Map<usize, usize>;

impl View for IdMap {
    type V = Map<usize, usize>;

    open spec fn view(&self) -> Map<usize, usize> {
        id_map_contents(*self)
    }
}

/// Relies on hashbrown::HashMap::new: the new map is empty.
#[verifier::external_body]
fn id_map_new() -> (r: IdMap)
    ensures
        id_map_contents(r).dom().is_empty(),
{
    IdMap { map: hashbrown::HashMap::new() }
}

/// Relies on hashbrown::HashMap::insert: `key` now maps to `value` (replacing
/// any earlier value); the other keys are untouched.
#[verifier::external_body]
fn id_map_insert(m: &mut IdMap, key: usize, value: usize)
    ensures
        id_map_contents(*final(m)) == id_map_contents(*old(m)).insert(key, value),
{
    m.map.insert(key, value);
}

/// Relies on hashbrown::HashMap::get: the value of `key`, if it has one.
#[verifier::external_body]
fn id_map_get(m: &IdMap, key: usize) -> (r: Option<usize>)
    ensures
        r == (if id_map_contents(*m).contains_key(key) {
            Some(id_map_contents(*m)[key])
        } else {
            None::<usize>
        }),
{
    m.map.get(&key).copied()
}

impl IdMap {
    pub fn new() -> (r: IdMap)
        ensures
            r@ == Map::<usize, usize>::empty(),
    {
        let r = id_map_new();
        assert(r@ =~= Map::<usize, usize>::empty());
        r
    }

    pub fn insert(&mut self, key: usize, value: usize)
        ensures
            final(self)@ == old(self)@.insert(key, value),
    {
        id_map_insert(self, key, value);
    }

    pub fn get(&self, key: usize) -> (r: Option<usize>)
        ensures
            r == (if self@.contains_key(key) {
                Some(self@[key])
            } else {
                None::<usize>
            }),
    {
        id_map_get(self, key)
    }
}

/// A map from (chromosome, position) to a locus number.
#[verifier::external_body]
pub struct LocusTable {
    map: hashbrown::HashMap<(String, usize), usize>,
}

/// The entries of a `LocusTable`, keyed by the chromosome's text.
pub uninterp spec fn locus_table_contents(t: LocusTable) -> Map<(Seq<char>, usize), usize>;

impl View for LocusTable {
    type V = Map<(Seq<char>, usize), usize>;

    open spec fn view(&self) -> Map<(Seq<char>, usize), usize> {
        locus_table_contents(*self)
    }
}

/// Relies on hashbrown::HashMap::new: the new table is empty.
#[verifier::external_body]
fn locus_table_new() -> (r: LocusTable)
    ensures
        locus_table_contents(r).dom().is_empty(),
{
    LocusTable { map: hashbrown::HashMap::new() }
}

/// Relies on hashbrown::HashMap::insert with `String` keys, which are equal
/// exactly when their texts are: the key now maps to `value`.
#[verifier::external_body]
fn locus_table_insert(t: &mut LocusTable, chrom: String, pos: usize, value: usize)
    ensures
        locus_table_contents(*final(t)) == locus_table_contents(*old(t)).insert((chrom@, pos), value),
{
    t.map.insert((chrom, pos), value);
}

/// Relies on hashbrown::HashMap::get with `String` keys: the value stored
/// under the same chromosome text and position, if any.
#[verifier::external_body]
fn locus_table_get(t: &LocusTable, chrom: &String, pos: usize) -> (r: Option<usize>)
    ensures
        r == (if locus_table_contents(*t).contains_key((chrom@, pos)) {
            Some(locus_table_contents(*t)[(chrom@, pos)])
        } else {
            None::<usize>
        }),
{
    t.map.get(&(chrom.clone(), pos)).copied()
}

impl LocusTable {
    pub fn new() -> (r: LocusTable)
        ensures
            r@ == Map::<(Seq<char>, usize), usize>::empty(),
    {
        let r = locus_table_new();
        assert(r@ =~= Map::<(Seq<char>, usize), usize>::empty());
        r
    }

    pub fn insert(&mut self, chrom: String, pos: usize, value: usize)
        ensures
            final(self)@ == old(self)@.insert((chrom@, pos), value),
    {
        locus_table_insert(self, chrom, pos, value);
    }

    pub fn get(&self, chrom: &String, pos: usize) -> (r: Option<usize>)
        ensures
            r == (if self@.contains_key((chrom@, pos)) {
                Some(self@[(chrom@, pos)])
            } else {
                None::<usize>
            }),
    {
        locus_table_get(self, chrom, pos)
    }
}

/// A map from a cell barcode to its cell id.
#[verifier::external_body]
pub struct BarcodeIndex {
    map: hashbrown::HashMap<String, usize>,
}

/// The entries of a `BarcodeIndex`, keyed by the barcode's text.
pub uninterp spec fn barcode_index_contents(t: BarcodeIndex) -> Map<Seq<char>, usize>;

impl View for BarcodeIndex {
    type V = Map<Seq<char>, usize>;

    open spec fn view(&self) -> Map<Seq<char>, usize> {
        barcode_index_contents(*self)
    }
}

/// Relies on hashbrown::HashMap::new: the new index is empty.
#[verifier::external_body]
fn barcode_index_new() -> (r: BarcodeIndex)
    ensures
        barcode_index_contents(r).dom().is_empty(),
{
    BarcodeIndex { map: hashbrown::HashMap::new() }
}

/// Relies on hashbrown::HashMap::insert with `String` keys, which are equal
/// exactly when their texts are: the barcode now maps to `value`.
#[verifier::external_body]
fn barcode_index_insert(t: &mut BarcodeIndex, barcode: String, value: usize)
    ensures
        barcode_index_contents(*final(t)) == barcode_index_contents(*old(t)).insert(barcode@, value),
{
    t.map.insert(barcode, value);
}

/// Relies on hashbrown::HashMap::get with `String` keys: the value stored
/// under the same text, if any.
#[verifier::external_body]
fn barcode_index_get(t: &BarcodeIndex, barcode: &String) -> (r: Option<usize>)
    ensures
        r == (if barcode_index_contents(*t).contains_key(barcode@) {
            Some(barcode_index_contents(*t)[barcode@])
        } else {
            None::<usize>
        }),
{
    t.map.get(barcode).copied()
}

impl BarcodeIndex {
    pub fn new() -> (r: BarcodeIndex)
        ensures
            r@ == Map::<Seq<char>, usize>::empty(),
    {
        let r = barcode_index_new();
        assert(r@ =~= Map::<Seq<char>, usize>::empty());
        r
    }

    pub fn insert(&mut self, barcode: String, value: usize)
        ensures
            final(self)@ == old(self)@.insert(barcode@, value),
    {
        barcode_index_insert(self, barcode, value);
    }

    pub fn get(&self, barcode: &String) -> (r: Option<usize>)
        ensures
            r == (if self@.contains_key(barcode@) {
                Some(self@[barcode@])
            } else {
                None::<usize>
            }),
    {
        barcode_index_get(self, barcode)
    }
}

} // verus!
