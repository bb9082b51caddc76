//! The inventory: zone keys mapped to sets of record identifiers.
use vstd::prelude::*;
use crate::yaml::{
    doc_view, items_view, parse_document, strings_view, write_document, yaml_doc_of, yaml_text_of,
    DocView,
};

verus! {

/// A record identifier: a provider record ID or a record name.
pub struct InventoryRecord(pub String);

/// The set of records kept for one zone, held without duplicates.
pub struct InventoryZone(Vec<InventoryRecord>);

/// Zone keys (a provider zone ID or a zone name) mapped to their record sets.
/// Keys are unique; the order of zones carries no meaning.
pub struct Inventory {
    zones: Vec<(String, InventoryZone)>,
}

/// Why an inventory could not be read or written.
pub enum InventoryError {
    /// The inventory file does not exist.
    NotFound,
    /// The text is not a mapping from zone keys to record lists.
    ParseError,
    /// The inventory could not be written as text.
    EncodeError,
}

/// An iterator over the zones of an inventory, each with its record
/// identifiers.
pub struct InventoryIter {
    items: Vec<(String, Vec<String>)>,
    curr: usize,
}

/// A zone key with its record identifiers.
pub type EntryView = (Seq<char>, Seq<Seq<char>>);

pub closed spec fn zone_records(z: InventoryZone) -> Seq<Seq<char>> {
    z.0@.map_values(|r: InventoryRecord| r.0@)
}

/// Zone keys are unique and no zone lists a record twice.
pub open spec fn entries_wf(e: Seq<EntryView>) -> bool {
    &&& forall|i: int, j: int|
        0 <= i < e.len() && 0 <= j < e.len() && i != j ==> #[trigger] e[i].0 != #[trigger] e[j].0
    &&& forall|i: int| 0 <= i < e.len() ==> (#[trigger] e[i]).1.no_duplicates()
}

pub open spec fn has_zone(e: Seq<EntryView>, z: Seq<char>) -> bool {
    exists|i: int| 0 <= i < e.len() && (#[trigger] e[i]).0 == z
}

/// The position of zone `z`, where it is present.
pub open spec fn zone_pos(e: Seq<EntryView>, z: Seq<char>) -> int {
    choose|i: int| 0 <= i < e.len() && (#[trigger] e[i]).0 == z
}

/// `e` with zone `z` present, added with no records where it was absent.
pub open spec fn ensure_zone_spec(e: Seq<EntryView>, z: Seq<char>) -> Seq<EntryView> {
    if has_zone(e, z) {
        e
    } else {
        e.push((z, Seq::<Seq<char>>::empty()))
    }
}

/// `e` with record `r` added to the set of zone `z`, where that zone is present.
pub open spec fn add_record_spec(e: Seq<EntryView>, z: Seq<char>, r: Seq<char>) -> Seq<EntryView> {
    if has_zone(e, z) {
        let i = zone_pos(e, z);
        if e[i].1.contains(r) {
            e
        } else {
            e.update(i, (z, e[i].1.push(r)))
        }
    } else {
        e
    }
}

/// `e` after inserting the pair `(z, r)`.
pub open spec fn insert_spec(e: Seq<EntryView>, z: Seq<char>, r: Seq<char>) -> Seq<EntryView> {
    add_record_spec(ensure_zone_spec(e, z), z, r)
}

/// The zone keys present.
pub open spec fn zone_keys(e: Seq<EntryView>) -> Set<Seq<char>> {
    Set::new(|z: Seq<char>| has_zone(e, z))
}

/// The `(zone, record)` pairs held, in no particular order.
pub open spec fn pair_set(e: Seq<EntryView>) -> Set<(Seq<char>, Seq<char>)> {
    Set::new(|p: (Seq<char>, Seq<char>)| exists|i: int| 0 <= i < e.len() && (#[trigger] e[i]).0 == p.0 && e[i].1.contains(p.1))
}

/// Every `(zone, record)` pair, zone by zone in the order held.
pub open spec fn flatten(e: Seq<EntryView>) -> Seq<(Seq<char>, Seq<char>)>
    decreases e.len(),
{
    if e.len() == 0 {
        Seq::empty()
    } else {
        let last = e.last();
        flatten(e.drop_last()) + last.1.map_values(|r: Seq<char>| (last.0, r))
    }
}

/// Inserting a pair yields an inventory in which zone `z` is present and every
/// entry under that key holds `r`.
proof fn lemma_insert_holds(e: Seq<EntryView>, z: Seq<char>, r: Seq<char>)
    requires
        entries_wf(e),
    ensures
        has_zone(insert_spec(e, z, r), z),
        forall|j: int|
            0 <= j < insert_spec(e, z, r).len() && (#[trigger] insert_spec(e, z, r)[j]).0 == z
                ==> insert_spec(e, z, r)[j].1.contains(r),
{
    let e0 = ensure_zone_spec(e, z);
    let e1 = insert_spec(e, z, r);
    if has_zone(e, z) {
        assert(e0 == e);
    } else {
        assert(e0[e.len() as int].0 == z);
        assert(forall|j: int| 0 <= j < e.len() ==> (#[trigger] e0[j]).0 == e[j].0);
    }
    assert(has_zone(e0, z));
    let i = zone_pos(e0, z);
    assert(forall|j: int| 0 <= j < e0.len() && (#[trigger] e0[j]).0 == z ==> j == i);
    if e0[i].1.contains(r) {
        assert(e1 == e0);
    } else {
        assert(e1 == e0.update(i, (z, e0[i].1.push(r))));
        assert(e1[i].1[e0[i].1.len() as int] == r);
    }
    assert(e1[i].0 == z);
}

/// Insertion is idempotent: inserting the same pair a second time leaves the
/// inventory as the first insertion left it.
pub proof fn lemma_insert_idempotent(e: Seq<EntryView>, z: Seq<char>, r: Seq<char>)
    requires
        entries_wf(e),
    ensures
        insert_spec(insert_spec(e, z, r), z, r) == insert_spec(e, z, r),
{
    lemma_insert_holds(e, z, r);
    let e1 = insert_spec(e, z, r);
    assert(ensure_zone_spec(e1, z) == e1);
    let i = zone_pos(e1, z);
    assert(e1[i].1.contains(r));
}

/// Inserting `(z, r)` adds exactly that pair to the set of pairs held and
/// exactly `z` to the set of zone keys.
pub proof fn lemma_insert_pairs(e: Seq<EntryView>, z: Seq<char>, r: Seq<char>)
    requires
        entries_wf(e),
    ensures
        pair_set(insert_spec(e, z, r)) == pair_set(e).insert((z, r)),
        zone_keys(insert_spec(e, z, r)) == zone_keys(e).insert(z),
{
    lemma_insert_holds(e, z, r);
    let e0 = ensure_zone_spec(e, z);
    let e1 = insert_spec(e, z, r);
    if !has_zone(e, z) {
        assert(e0[e.len() as int].0 == z);
        assert(forall|j: int| 0 <= j < e.len() ==> (#[trigger] e0[j]).0 == e[j].0);
    }
    let i = zone_pos(e0, z);
    assert(0 <= i < e0.len() && e0[i].0 == z);
    assert(e1.len() == e0.len());
    // entries other than the one of `z` are untouched, and that one only gains `r`
    assert(forall|j: int| 0 <= j < e1.len() && j != i ==> #[trigger] e1[j] == e0[j]);
    assert(e1[i].0 == z);
    assert(forall|x: Seq<char>| #[trigger] e1[i].1.contains(x) <==> (e0[i].1.contains(x) || x == r)) by {
        if !e0[i].1.contains(r) {
            assert(e1[i].1 == e0[i].1.push(r));
            assert(forall|x: Seq<char>| #[trigger] e1[i].1.contains(x) ==> (e0[i].1.contains(x) || x == r)) by {
                assert forall|x: Seq<char>| #[trigger] e1[i].1.contains(x) implies (e0[i].1.contains(x) || x == r) by {
                    let k = choose|k: int| 0 <= k < e1[i].1.len() && e1[i].1[k] == x;
                    if k < e0[i].1.len() {
                        assert(e0[i].1[k] == x);
                    }
                }
            }
            assert forall|x: Seq<char>| e0[i].1.contains(x) implies #[trigger] e1[i].1.contains(x) by {
                let k = choose|k: int| 0 <= k < e0[i].1.len() && e0[i].1[k] == x;
                assert(e1[i].1[k] == x);
            }
        }
    }
    // the pairs of `e0` are those of `e`
    assert(pair_set(e0) =~= pair_set(e)) by {
        if !has_zone(e, z) {
            assert forall|p: (Seq<char>, Seq<char>)| pair_set(e0).contains(p) implies pair_set(e).contains(p) by {
                let j = choose|j: int| 0 <= j < e0.len() && (#[trigger] e0[j]).0 == p.0 && e0[j].1.contains(p.1);
                if j == e.len() {
                    assert(!e0[j].1.contains(p.1));
                }
                assert(e[j] == e0[j]);
            }
            assert forall|p: (Seq<char>, Seq<char>)| pair_set(e).contains(p) implies pair_set(e0).contains(p) by {
                let j = choose|j: int| 0 <= j < e.len() && (#[trigger] e[j]).0 == p.0 && e[j].1.contains(p.1);
                assert(e0[j] == e[j]);
            }
        }
    }
    assert(zone_keys(e0) =~= zone_keys(e).insert(z)) by {
        if !has_zone(e, z) {
            assert forall|y: Seq<char>| zone_keys(e0).contains(y) implies zone_keys(e).insert(z).contains(y) by {
                let j = choose|j: int| 0 <= j < e0.len() && (#[trigger] e0[j]).0 == y;
                if j < e.len() {
                    assert(e[j] == e0[j]);
                }
            }
            assert forall|y: Seq<char>| zone_keys(e).insert(z).contains(y) implies zone_keys(e0).contains(y) by {
                if y != z {
                    let j = choose|j: int| 0 <= j < e.len() && (#[trigger] e[j]).0 == y;
                    assert(e0[j] == e[j]);
                }
            }
        }
    }
    assert(pair_set(e1) =~= pair_set(e0).insert((z, r))) by {
        assert forall|p: (Seq<char>, Seq<char>)| pair_set(e1).contains(p) implies pair_set(e0).insert((z, r)).contains(p) by {
            let j = choose|j: int| 0 <= j < e1.len() && (#[trigger] e1[j]).0 == p.0 && e1[j].1.contains(p.1);
            if j != i {
                assert(e0[j] == e1[j]);
            } else if p.1 != r {
                assert(e0[i].1.contains(p.1));
            }
        }
        assert forall|p: (Seq<char>, Seq<char>)| pair_set(e0).insert((z, r)).contains(p) implies pair_set(e1).contains(p) by {
            if p == (z, r) {
                assert(e1[i].1.contains(r));
            } else {
                let j = choose|j: int| 0 <= j < e0.len() && (#[trigger] e0[j]).0 == p.0 && e0[j].1.contains(p.1);
                if j != i {
                    assert(e0[j] == e1[j]);
                } else {
                    assert(e1[i].1.contains(p.1));
                }
            }
        }
    }
    assert(zone_keys(e1) =~= zone_keys(e0)) by {
        assert forall|y: Seq<char>| zone_keys(e1).contains(y) implies zone_keys(e0).contains(y) by {
            let j = choose|j: int| 0 <= j < e1.len() && (#[trigger] e1[j]).0 == y;
            assert(e0[j].0 == e1[j].0);
        }
        assert forall|y: Seq<char>| zone_keys(e0).contains(y) implies zone_keys(e1).contains(y) by {
            let j = choose|j: int| 0 <= j < e0.len() && (#[trigger] e0[j]).0 == y;
            assert(e0[j].0 == e1[j].0);
        }
    }
}

/// Inserting the same pair twice into an inventory without that zone leaves
/// the zone with exactly one record.
pub proof fn lemma_insert_twice_single(e: Seq<EntryView>, z: Seq<char>, r: Seq<char>)
    requires
        entries_wf(e),
        !has_zone(e, z),
    ensures
        insert_spec(insert_spec(e, z, r), z, r) == e.push((z, seq![r])),
{
    lemma_insert_idempotent(e, z, r);
    let e0 = ensure_zone_spec(e, z);
    assert(e0[e.len() as int].0 == z);
    let i = zone_pos(e0, z);
    assert(forall|j: int| 0 <= j < e.len() ==> (#[trigger] e0[j]).0 == e[j].0);
    assert(i == e.len());
    assert(!e0[i].1.contains(r));
    assert(Seq::<Seq<char>>::empty().push(r) =~= seq![r]);
    assert(insert_spec(e, z, r) =~= e.push((z, seq![r])));
}

/// The number of `(zone, record)` entries held, over all zones.
pub open spec fn total_records(e: Seq<EntryView>) -> nat
    decreases e.len(),
{
    if e.len() == 0 {
        0
    } else {
        total_records(e.drop_last()) + e.last().1.len()
    }
}

/// Flattening keeps every record entry, one pair each.
pub proof fn lemma_flatten_len(e: Seq<EntryView>)
    ensures
        flatten(e).len() == total_records(e),
    decreases e.len(),
{
    if e.len() > 0 {
        lemma_flatten_len(e.drop_last());
    }
}

/// `e` with zone `z` present and each of `recs` inserted under it, in order.
pub open spec fn add_zone_spec(e: Seq<EntryView>, z: Seq<char>, recs: Seq<Seq<char>>) -> Seq<
    EntryView,
>
    decreases recs.len(),
{
    if recs.len() == 0 {
        ensure_zone_spec(e, z)
    } else {
        insert_spec(add_zone_spec(e, z, recs.drop_last()), z, recs.last())
    }
}

/// `e` with the zones of a document added in order.
pub open spec fn load_zones(
    e: Seq<EntryView>,
    zs: Seq<(Seq<char>, Option<Seq<Seq<char>>>)>,
) -> Seq<EntryView>
    decreases zs.len(),
{
    if zs.len() == 0 {
        e
    } else {
        let last = zs.last();
        add_zone_spec(
            load_zones(e, zs.drop_last()),
            last.0,
            match last.1 {
                Some(rs) => rs,
                None => Seq::empty(),
            },
        )
    }
}

/// The inventory a document describes: a null document is empty, a null
/// record list an empty set, and repeated records are held once.
pub open spec fn from_doc_spec(d: DocView) -> Seq<EntryView> {
    match d {
        None => Seq::empty(),
        Some(zs) => load_zones(Seq::empty(), zs),
    }
}

/// The view of a list of string pairs.
pub open spec fn pairs_view(v: Seq<(String, String)>) -> Seq<(Seq<char>, Seq<char>)> {
    v.map_values(|p: (String, String)| (p.0@, p.1@))
}

impl Inventory {
    /// The zones with their records, in the order they are held.
    pub closed spec fn entries(&self) -> Seq<EntryView> {
        self.zones@.map_values(|z: (String, InventoryZone)| (z.0@, zone_records(z.1)))
    }

    pub open spec fn wf(&self) -> bool {
        entries_wf(self.entries())
    }

    /// An inventory with no zones.
    pub fn new() -> (r: Inventory)
        ensures
            r.wf(),
            r.entries() == Seq::<EntryView>::empty(),
    {
        let r = Inventory { zones: Vec::new() };
        assert(r.entries() =~= Seq::<EntryView>::empty());
        r
    }

    /// True when no zone is present at all; a zone with no records counts as
    /// present.
    pub fn is_empty(&self) -> (r: bool)
        ensures
            r == (self.entries().len() == 0),
    {
        self.zones.len() == 0
    }

    /// Makes zone `zone_id` present and returns its position.
    fn ensure_zone(&mut self, zone_id: String) -> (i: usize)
        requires
            old(self).wf(),
        ensures
            final(self).wf(),
            final(self).entries() == ensure_zone_spec(old(self).entries(), zone_id@),
            i < final(self).entries().len(),
            final(self).entries()[i as int].0 == zone_id@,
    {
        let ghost e = self.entries();
        let mut i: usize = 0;
        while i < self.zones.len()
            invariant
                e == self.entries(),
                self.wf(),
                i <= self.zones.len(),
                forall|j: int| 0 <= j < i ==> (#[trigger] e[j]).0 != zone_id@,
            decreases self.zones.len() - i,
        {
            assert(e[i as int].0 == self.zones[i as int].0@);
            if self.zones[i].0 == zone_id {
                return i;
            }
            i += 1;
        }
        assert(!has_zone(e, zone_id@));
        let fresh = InventoryZone(Vec::new());
        assert(zone_records(fresh) =~= Seq::<Seq<char>>::empty());
        self.zones.push((zone_id, fresh));
        assert(self.entries() =~= e.push((zone_id@, Seq::<Seq<char>>::empty())));
        i
    }

    /// Adds `record_id` to the set of zone `zone_id`, creating the zone where
    /// it is absent. Inserting a pair that is already held changes nothing.
    pub fn insert(&mut self, zone_id: String, record_id: String)
        requires
            old(self).wf(),
        ensures
            final(self).wf(),
            final(self).entries() == insert_spec(old(self).entries(), zone_id@, record_id@),
            pair_set(final(self).entries()) == pair_set(old(self).entries()).insert(
                (zone_id@, record_id@),
            ),
            zone_keys(final(self).entries()) == zone_keys(old(self).entries()).insert(zone_id@),
    {
        proof {
            lemma_insert_pairs(self.entries(), zone_id@, record_id@);
        }
        let ghost z = zone_id@;
        let ghost r = record_id@;
        let i = self.ensure_zone(zone_id);
        let ghost e = self.entries();
        assert(zone_pos(e, z) == i);
        let mut j: usize = 0;
        let n = self.zones[i].1.0.len();
        while j < n
            invariant
                e == self.entries(),
                self.wf(),
                r == record_id@,
                z == zone_id@,
                z == e[i as int].0,
                has_zone(e, z),
                zone_pos(e, z) == i,
                e == ensure_zone_spec(old(self).entries(), z),
                i < self.zones.len(),
                n == self.zones[i as int].1.0.len(),
                e[i as int].1.len() == n,
                j <= n,
                forall|k: int| 0 <= k < j ==> (#[trigger] e[i as int].1[k]) != r,
            decreases n - j,
        {
            assert(e[i as int].1 == zone_records(self.zones[i as int].1));
            assert(e[i as int].1[j as int] == self.zones[i as int].1.0[j as int].0@);
            if self.zones[i].1.0[j].0 == record_id {
                assert(e[i as int].1[j as int] == r);
                assert(e[i as int].1.contains(r));
                return;
            }
            j += 1;
        }
        assert(!e[i as int].1.contains(r));
        let mut entry = self.zones.remove(i);
        entry.1.0.push(InventoryRecord(record_id));
        assert(zone_records(entry.1) =~= e[i as int].1.push(r));
        self.zones.insert(i, entry);
        assert(self.entries() =~= e.update(i as int, (z, e[i as int].1.push(r))));
    }

    /// Every `(zone, record)` pair held, zone by zone.
    pub fn pairs(&self) -> (r: Vec<(String, String)>)
        ensures
            pairs_view(r@) == flatten(self.entries()),
    {
        let ghost e = self.entries();
        let mut out: Vec<(String, String)> = Vec::new();
        let mut i: usize = 0;
        while i < self.zones.len()
            invariant
                e == self.entries(),
                i <= self.zones.len(),
                pairs_view(out@) == flatten(e.take(i as int)),
            decreases self.zones.len() - i,
        {
            let ghost before = pairs_view(out@);
            let key = &self.zones[i].0;
            let recs = &self.zones[i].1.0;
            assert(e[i as int].0 == key@);
            assert(e[i as int].1 == zone_records(self.zones[i as int].1));
            let mut j: usize = 0;
            while j < recs.len()
                invariant
                    e == self.entries(),
                    i < self.zones.len(),
                    *recs == self.zones[i as int].1.0,
                    e[i as int].0 == key@,
                    e[i as int].1 == zone_records(self.zones[i as int].1),
                    j <= recs.len(),
                    pairs_view(out@) == before + e[i as int].1.take(j as int).map_values(
                        |r: Seq<char>| (key@, r),
                    ),
                decreases recs.len() - j,
            {
                let ghost prev = out@;
                out.push((key.clone(), recs[j].0.clone()));
                assert(pairs_view(out@) =~= pairs_view(prev).push((key@, recs[j as int].0@)));
                assert(e[i as int].1[j as int] == recs[j as int].0@);
                assert(e[i as int].1.take(j + 1) =~= e[i as int].1.take(j as int).push(recs[j as int].0@));
                assert(e[i as int].1.take(j + 1).map_values(|r: Seq<char>| (key@, r))
                    =~= e[i as int].1.take(j as int).map_values(|r: Seq<char>| (key@, r)).push((key@, recs[j as int].0@)));
                assert(pairs_view(out@) =~= before + e[i as int].1.take(j + 1).map_values(
                    |r: Seq<char>| (key@, r),
                ));
                j += 1;
            }
            assert(e.take(i + 1).drop_last() =~= e.take(i as int));
            assert(e[i as int].1.take(j as int) =~= e[i as int].1);
            i += 1;
        }
        assert(e.take(i as int) =~= e);
        out
    }

    /// The zones with their records, as plain strings.
    fn items(&self) -> (r: Vec<(String, Vec<String>)>)
        ensures
            items_view(r@) == self.entries(),
    {
        let ghost e = self.entries();
        let mut out: Vec<(String, Vec<String>)> = Vec::new();
        let mut i: usize = 0;
        while i < self.zones.len()
            invariant
                e == self.entries(),
                i <= self.zones.len(),
                items_view(out@) == e.take(i as int),
            decreases self.zones.len() - i,
        {
            let recs = &self.zones[i].1.0;
            let mut names: Vec<String> = Vec::new();
            let mut j: usize = 0;
            while j < recs.len()
                invariant
                    *recs == self.zones[i as int].1.0,
                    i < self.zones.len(),
                    j <= recs.len(),
                    strings_view(names@) == zone_records(self.zones[i as int].1).take(j as int),
                decreases recs.len() - j,
            {
                let ghost prev = names@;
                names.push(recs[j].0.clone());
                assert(strings_view(names@) =~= strings_view(prev).push(recs[j as int].0@));
                assert(zone_records(self.zones[i as int].1)[j as int] == recs[j as int].0@);
                assert(strings_view(names@) =~= zone_records(self.zones[i as int].1).take(j + 1));
                j += 1;
            }
            assert(zone_records(self.zones[i as int].1).take(j as int) =~= zone_records(self.zones[i as int].1));
            let ghost prev_out = out@;
            out.push((self.zones[i].0.clone(), names));
            assert(e[i as int] == (self.zones[i as int].0@, zone_records(self.zones[i as int].1)));
            assert(items_view(out@) =~= items_view(prev_out).push(e[i as int]));
            assert(items_view(out@) =~= e.take(i + 1));
            i += 1;
        }
        assert(e.take(i as int) =~= e);
        out
    }

    /// An iterator over the zones, each with its record identifiers.
    pub fn into_iter(self) -> (r: InventoryIter)
        ensures
            r.wf(),
            r.remaining() == self.entries(),
    {
        let items = self.items();
        let r = InventoryIter { items, curr: 0 };
        assert(items_view(r.items@).skip(0) =~= items_view(r.items@));
        r
    }

    /// The inventory a parsed document describes.
    pub fn from_document(doc: Option<Vec<(String, Option<Vec<String>>)>>) -> (r: Inventory)
        ensures
            r.wf(),
            r.entries() == from_doc_spec(doc_view(doc)),
    {
        let mut inv = Inventory::new();
        match doc {
            None => inv,
            Some(zones) => {
                let ghost zs = doc_view(Some(zones))->Some_0;
                let mut i: usize = 0;
                while i < zones.len()
                    invariant
                        zs == doc_view(Some(zones))->Some_0,
                        i <= zones.len(),
                        inv.wf(),
                        inv.entries() == load_zones(Seq::empty(), zs.take(i as int)),
                    decreases zones.len() - i,
                {
                    let key = &zones[i].0;
                    let ghost before = inv.entries();
                    let ghost recs: Seq<Seq<char>> = match zones[i as int].1 {
                        Some(rs) => strings_view(rs@),
                        None => Seq::empty(),
                    };
                    assert(zs[i as int] == (key@, match zones[i as int].1 {
                        None => None,
                        Some(rs) => Some(strings_view(rs@)),
                    }));
                    inv.ensure_zone(key.clone());
                    assert(recs.take(0) =~= Seq::<Seq<char>>::empty());
                    match &zones[i].1 {
                        None => {},
                        Some(rs) => {
                            let mut j: usize = 0;
                            while j < rs.len()
                                invariant
                                    recs == strings_view(rs@),
                                    j <= rs.len(),
                                    inv.wf(),
                                    inv.entries() == add_zone_spec(before, key@, recs.take(j as int)),
                                decreases rs.len() - j,
                            {
                                inv.insert(key.clone(), rs[j].clone());
                                assert(recs.take(j + 1).drop_last() =~= recs.take(j as int));
                                j += 1;
                            }
                            assert(recs.take(j as int) =~= recs);
                        },
                    }
                    assert(zs.take(i + 1).drop_last() =~= zs.take(i as int));
                    i += 1;
                }
                assert(zs.take(i as int) =~= zs);
                inv
            },
        }
    }

    /// Reads an inventory from its YAML text.
    pub fn from_yaml(text: &str) -> (r: Result<Inventory, InventoryError>)
        ensures
            match yaml_doc_of(text@) {
                None => r is Err && r->Err_0 is ParseError,
                Some(d) => r matches Ok(inv) && inv.wf() && inv.entries() == from_doc_spec(d),
            },
    {
        match parse_document(text) {
            Ok(doc) => Ok(Inventory::from_document(doc)),
            Err(_) => Err(InventoryError::ParseError),
        }
    }

    /// Writes the inventory as YAML text.
    pub fn to_yaml(&self) -> (r: Result<String, InventoryError>)
        ensures
            r matches Ok(s) && s@ == yaml_text_of(self.entries()),
    {
        let items = self.items();
        match write_document(&items) {
            Ok(s) => Ok(s),
            Err(_) => Err(InventoryError::EncodeError),
        }
    }
}

impl InventoryIter {
    /// The zones not yet handed out.
    pub closed spec fn remaining(&self) -> Seq<EntryView> {
        items_view(self.items@).skip(self.curr as int)
    }

    pub closed spec fn wf(&self) -> bool {
        self.curr <= self.items@.len()
    }

    /// The next zone with its record identifiers, or `None` once all are out.
    pub fn next(&mut self) -> (r: Option<(String, Vec<String>)>)
        requires
            old(self).wf(),
        ensures
            final(self).wf(),
            old(self).remaining().len() == 0 ==> r is None && final(self).remaining() == old(
                self,
            ).remaining(),
            old(self).remaining().len() > 0 ==> (r matches Some(item) && (item.0@, strings_view(
                item.1@,
            )) == old(self).remaining()[0] && final(self).remaining() == old(
                self,
            ).remaining().drop_first()),
    {
        let ghost rem = self.remaining();
        if self.curr < self.items.len() {
            let current = self.curr;
            let zone = self.items[current].0.clone();
            let src = &self.items[current].1;
            let mut records: Vec<String> = Vec::new();
            let mut j: usize = 0;
            while j < src.len()
                invariant
                    j <= src.len(),
                    records@ == src@.take(j as int),
                decreases src.len() - j,
            {
                records.push(src[j].clone());
                assert(records@ =~= src@.take(j + 1));
                j += 1;
            }
            assert(src@.take(j as int) =~= src@);
            self.curr = current + 1;
            assert(self.remaining() =~= rem.drop_first());
            Some((zone, records))
        } else {
            None
        }
    }
}

} // verus!
