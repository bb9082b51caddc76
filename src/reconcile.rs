//! Reconciliation of an inventory against a snapshot of the provider's live
//! records and the caller's public addresses.
use vstd::prelude::*;
use crate::inventory::{flatten, lemma_flatten_len, pairs_view, total_records, Inventory};

verus! {

/// A record as the provider reports it.
pub struct LiveRecord {
    pub id: String,
    pub zone_id: String,
    pub zone_name: String,
    pub name: String,
    pub record_type: String,
    pub content: String,
}

/// Why a reconciliation pass stopped; each carries the record type at hand.
pub enum ReconcileError {
    /// The public address of the family the record type needs was not resolved.
    NoComparableAddress(String),
    /// A matched record has a type that has no comparison rule.
    UnsupportedRecordType(String),
}

/// The three classes of a completed pass.
pub struct Reconciliation {
    /// Matched records whose content equals the expected address.
    pub good: Vec<LiveRecord>,
    /// Matched records whose content differs from the expected address.
    pub bad: Vec<LiveRecord>,
    /// Inventory pairs with no live counterpart.
    pub invalid: Vec<(String, String)>,
}

/// The classes of a pass, as values.
pub struct PartitionView {
    pub good: Seq<LiveRecord>,
    pub bad: Seq<LiveRecord>,
    pub invalid: Seq<(Seq<char>, Seq<char>)>,
}

impl Reconciliation {
    pub open spec fn view_of(&self) -> PartitionView {
        PartitionView { good: self.good@, bad: self.bad@, invalid: pairs_view(self.invalid@) }
    }
}

pub open spec fn opt_view(o: Option<String>) -> Option<Seq<char>> {
    match o {
        Some(s) => Some(s@),
        None => None,
    }
}

/// The record answers to the zone key by zone ID or zone name, and to the
/// record identifier by record ID or record name.
pub open spec fn record_matches(rec: LiveRecord, zone: Seq<char>, record: Seq<char>) -> bool {
    (rec.zone_id@ == zone || rec.zone_name@ == zone) && (rec.id@ == record || rec.name@ == record)
}

/// The first record of `recs` that matches, if any.
pub open spec fn first_match(recs: Seq<LiveRecord>, zone: Seq<char>, record: Seq<char>) -> Option<
    LiveRecord,
>
    decreases recs.len(),
{
    if recs.len() == 0 {
        None
    } else if record_matches(recs[0], zone, record) {
        Some(recs[0])
    } else {
        first_match(recs.drop_first(), zone, record)
    }
}

/// Files a matched record as good or bad against `addr`, or fails when the
/// address is absent.
pub open spec fn compare_spec(acc: PartitionView, rec: LiveRecord, addr: Option<Seq<char>>) -> Result<
    PartitionView,
    ReconcileError,
> {
    match addr {
        None => Err(ReconcileError::NoComparableAddress(rec.record_type)),
        Some(a) => if rec.content@ == a {
            Ok(PartitionView { good: acc.good.push(rec), ..acc })
        } else {
            Ok(PartitionView { bad: acc.bad.push(rec), ..acc })
        },
    }
}

/// Classifies one inventory pair on top of `acc`.
pub open spec fn step_spec(
    acc: PartitionView,
    pair: (Seq<char>, Seq<char>),
    recs: Seq<LiveRecord>,
    v4: Option<Seq<char>>,
    v6: Option<Seq<char>>,
) -> Result<PartitionView, ReconcileError> {
    match first_match(recs, pair.0, pair.1) {
        None => Ok(PartitionView { invalid: acc.invalid.push(pair), ..acc }),
        Some(rec) => if rec.record_type@ == seq!['A'] {
            compare_spec(acc, rec, v4)
        } else if rec.record_type@ == seq!['A', 'A', 'A', 'A'] {
            compare_spec(acc, rec, v6)
        } else {
            Err(ReconcileError::UnsupportedRecordType(rec.record_type))
        },
    }
}

/// The outcome of classifying `pairs` in order: the first failure, or the
/// three classes.
pub open spec fn classify(
    pairs: Seq<(Seq<char>, Seq<char>)>,
    recs: Seq<LiveRecord>,
    v4: Option<Seq<char>>,
    v6: Option<Seq<char>>,
) -> Result<PartitionView, ReconcileError>
    decreases pairs.len(),
{
    if pairs.len() == 0 {
        Ok(PartitionView { good: Seq::empty(), bad: Seq::empty(), invalid: Seq::empty() })
    } else {
        match classify(pairs.drop_last(), recs, v4, v6) {
            Err(e) => Err(e),
            Ok(acc) => step_spec(acc, pairs.last(), recs, v4, v6),
        }
    }
}

impl LiveRecord {
    /// A field-for-field copy.
    pub fn copy(&self) -> (r: LiveRecord)
        ensures
            r == *self,
    {
        LiveRecord {
            id: self.id.clone(),
            zone_id: self.zone_id.clone(),
            zone_name: self.zone_name.clone(),
            name: self.name.clone(),
            record_type: self.record_type.clone(),
            content: self.content.clone(),
        }
    }
}

fn is_type_a(s: &String) -> (r: bool)
    ensures
        r == (s@ == seq!['A']),
{
    let t = s.as_str();
    if t.unicode_len() != 1 {
        return false;
    }
    let c = t.get_char(0);
    assert(c == 'A' ==> s@ =~= seq!['A']);
    c == 'A'
}

fn is_type_aaaa(s: &String) -> (r: bool)
    ensures
        r == (s@ == seq!['A', 'A', 'A', 'A']),
{
    let t = s.as_str();
    if t.unicode_len() != 4 {
        return false;
    }
    let c0 = t.get_char(0);
    let c1 = t.get_char(1);
    let c2 = t.get_char(2);
    let c3 = t.get_char(3);
    let r = c0 == 'A' && c1 == 'A' && c2 == 'A' && c3 == 'A';
    assert(r ==> s@ =~= seq!['A', 'A', 'A', 'A']);
    r
}

/// The position of the first live record that matches `(zone, record)`.
pub fn find_match(records: &Vec<LiveRecord>, zone: &String, record: &String) -> (r: Option<usize>)
    ensures
        match first_match(records@, zone@, record@) {
            None => r is None,
            Some(rec) => r matches Some(i) && i < records@.len() && records@[i as int] == rec,
        },
{
    let n = records.len();
    let mut j: usize = 0;
    assert(records@.subrange(0, n as int) =~= records@);
    while j < n
        invariant
            n == records@.len(),
            j <= n,
            first_match(records@, zone@, record@) == first_match(
                records@.subrange(j as int, n as int),
                zone@,
                record@,
            ),
        decreases n - j,
    {
        let rec = &records[j];
        let ghost rest = records@.subrange(j as int, n as int);
        assert(rest[0] == *rec);
        assert(rest.drop_first() =~= records@.subrange(j + 1, n as int));
        if (rec.zone_id == *zone || rec.zone_name == *zone) && (rec.id == *record || rec.name
            == *record) {
            return Some(j);
        }
        j += 1;
    }
    None
}

/// Files a matched record against `addr`.
fn compare(acc: &mut Reconciliation, rec: &LiveRecord, addr: &Option<String>) -> (r: Result<
    (),
    ReconcileError,
>)
    ensures
        match compare_spec(old(acc).view_of(), *rec, opt_view(*addr)) {
            Ok(p) => r is Ok && final(acc).view_of() == p,
            Err(e) => r == Err::<(), ReconcileError>(e),
        },
{
    match addr {
        None => Err(ReconcileError::NoComparableAddress(rec.record_type.clone())),
        Some(a) => {
            if rec.content == *a {
                acc.good.push(rec.copy());
            } else {
                acc.bad.push(rec.copy());
            }
            Ok(())
        },
    }
}

/// Classifies every `(zone, record)` pair of the inventory against the live
/// records: a pair with no matching record is invalid; a matched record of
/// type `A` is compared with `ipv4`, one of type `AAAA` with `ipv6`, and is
/// good when its content equals that address and bad otherwise. The pass
/// stops at the first matched record whose address is absent or whose type
/// has no rule.
pub fn check_records(
    inventory: &Inventory,
    records: &Vec<LiveRecord>,
    ipv4: &Option<String>,
    ipv6: &Option<String>,
) -> (r: Result<Reconciliation, ReconcileError>)
    ensures
        match classify(flatten(inventory.entries()), records@, opt_view(*ipv4), opt_view(*ipv6)) {
            Ok(p) => r matches Ok(out) && out.view_of() == p,
            Err(e) => r == Err::<Reconciliation, ReconcileError>(e),
        },
{
    let pairs = inventory.pairs();
    let ghost ps = pairs_view(pairs@);
    let ghost v4 = opt_view(*ipv4);
    let ghost v6 = opt_view(*ipv6);
    let mut acc = Reconciliation { good: Vec::new(), bad: Vec::new(), invalid: Vec::new() };
    assert(pairs_view(acc.invalid@) =~= Seq::empty());
    assert(acc.good@ =~= Seq::empty());
    assert(acc.bad@ =~= Seq::empty());
    let mut i: usize = 0;
    while i < pairs.len()
        invariant
            ps == pairs_view(pairs@),
            ps == flatten(inventory.entries()),
            v4 == opt_view(*ipv4),
            v6 == opt_view(*ipv6),
            i <= pairs.len(),
            classify(ps.take(i as int), records@, v4, v6) == Ok::<PartitionView, ReconcileError>(
                acc.view_of(),
            ),
        decreases pairs.len() - i,
    {
        let ghost prev = acc.view_of();
        assert(ps.take(i + 1).drop_last() =~= ps.take(i as int));
        let zone = &pairs[i].0;
        let record = &pairs[i].1;
        assert(ps.take(i + 1).last() == (zone@, record@));
        match find_match(records, zone, record) {
            None => {
                let ghost before = acc.invalid@;
                acc.invalid.push((zone.clone(), record.clone()));
                assert(pairs_view(acc.invalid@) =~= pairs_view(before).push((zone@, record@)));
            },
            Some(k) => {
                let rec = &records[k];
                if is_type_a(&rec.record_type) {
                    let res = compare(&mut acc, rec, ipv4);
                    if let Err(e) = res {
                        proof {
                            lemma_classify_err_prefix(ps, (i + 1) as int, records@, v4, v6);
                        }
                        return Err(e);
                    }
                } else if is_type_aaaa(&rec.record_type) {
                    let res = compare(&mut acc, rec, ipv6);
                    if let Err(e) = res {
                        proof {
                            lemma_classify_err_prefix(ps, (i + 1) as int, records@, v4, v6);
                        }
                        return Err(e);
                    }
                } else {
                    proof {
                        lemma_classify_err_prefix(ps, (i + 1) as int, records@, v4, v6);
                    }
                    return Err(ReconcileError::UnsupportedRecordType(rec.record_type.clone()));
                }
            },
        }
        i += 1;
    }
    assert(ps.take(i as int) =~= ps);
    Ok(acc)
}

/// A pass that completes files each pair in exactly one class.
proof fn lemma_classify_counts(
    ps: Seq<(Seq<char>, Seq<char>)>,
    recs: Seq<LiveRecord>,
    v4: Option<Seq<char>>,
    v6: Option<Seq<char>>,
)
    ensures
        classify(ps, recs, v4, v6) matches Ok(p) ==> p.good.len() + p.bad.len() + p.invalid.len()
            == ps.len(),
    decreases ps.len(),
{
    if ps.len() > 0 {
        lemma_classify_counts(ps.drop_last(), recs, v4, v6);
    }
}

/// Partition completeness: a pass over an inventory that does not abort
/// yields as many good, bad and invalid entries together as the inventory
/// holds record entries.
pub proof fn lemma_partition_complete(
    inventory: Inventory,
    recs: Seq<LiveRecord>,
    v4: Option<Seq<char>>,
    v6: Option<Seq<char>>,
)
    ensures
        classify(flatten(inventory.entries()), recs, v4, v6) matches Ok(p) ==> p.good.len()
            + p.bad.len() + p.invalid.len() == total_records(inventory.entries()),
{
    lemma_flatten_len(inventory.entries());
    lemma_classify_counts(flatten(inventory.entries()), recs, v4, v6);
}

/// Matching by either identifier: a live record is found whether the zone is
/// named by its zone ID or zone name and the record by its ID or name; it is
/// the record found when no earlier record answers to the same pair.
pub proof fn lemma_match_by_either_identifier(
    recs: Seq<LiveRecord>,
    i: int,
    zone: Seq<char>,
    record: Seq<char>,
)
    requires
        0 <= i < recs.len(),
        zone == recs[i].zone_id@ || zone == recs[i].zone_name@,
        record == recs[i].id@ || record == recs[i].name@,
    ensures
        first_match(recs, zone, record) is Some,
        (forall|j: int| 0 <= j < i ==> !record_matches(#[trigger] recs[j], zone, record))
            ==> first_match(recs, zone, record) == Some(recs[i]),
    decreases i,
{
    if i > 0 && !record_matches(recs[0], zone, record) {
        let rest = recs.drop_first();
        assert(rest[i - 1] == recs[i]);
        lemma_match_by_either_identifier(rest, i - 1, zone, record);
        if forall|j: int| 0 <= j < i ==> !record_matches(#[trigger] recs[j], zone, record) {
            assert forall|j: int| 0 <= j < i - 1 implies !record_matches(#[trigger] rest[j], zone, record) by {
                assert(rest[j] == recs[j + 1]);
            }
        }
    } else if i > 0 {
        assert(!(forall|j: int| 0 <= j < i ==> !record_matches(#[trigger] recs[j], zone, record)));
    }
}

/// Either identifier classifies alike: where a live record is the first to
/// answer to two inventory pairs, each naming its zone by zone ID or zone name
/// and the record by ID or name, both pairs find it (neither is invalid) and
/// are filed in the same class, or stop the pass with the same error.
pub proof fn lemma_alternate_identifier_same_class(
    acc: PartitionView,
    recs: Seq<LiveRecord>,
    i: int,
    p: (Seq<char>, Seq<char>),
    q: (Seq<char>, Seq<char>),
    v4: Option<Seq<char>>,
    v6: Option<Seq<char>>,
)
    requires
        0 <= i < recs.len(),
        p.0 == recs[i].zone_id@ || p.0 == recs[i].zone_name@,
        p.1 == recs[i].id@ || p.1 == recs[i].name@,
        q.0 == recs[i].zone_id@ || q.0 == recs[i].zone_name@,
        q.1 == recs[i].id@ || q.1 == recs[i].name@,
        forall|j: int| 0 <= j < i ==> !record_matches(#[trigger] recs[j], p.0, p.1),
        forall|j: int| 0 <= j < i ==> !record_matches(#[trigger] recs[j], q.0, q.1),
    ensures
        first_match(recs, p.0, p.1) == Some(recs[i]),
        first_match(recs, q.0, q.1) == Some(recs[i]),
        step_spec(acc, p, recs, v4, v6) == step_spec(acc, q, recs, v4, v6),
{
    lemma_match_by_either_identifier(recs, i, p.0, p.1);
    lemma_match_by_either_identifier(recs, i, q.0, q.1);
}

/// A missing address stops the whole pass: where every pair before position
/// `k` is filed without error and the first record matching pair `k` is of
/// type `A` with no IPv4 address, or of type `AAAA` with no IPv6 address, the
/// pass fails with `NoComparableAddress` for that type and returns no classes.
pub proof fn lemma_missing_address_aborts(
    ps: Seq<(Seq<char>, Seq<char>)>,
    k: int,
    recs: Seq<LiveRecord>,
    m: LiveRecord,
    v4: Option<Seq<char>>,
    v6: Option<Seq<char>>,
)
    requires
        0 <= k < ps.len(),
        classify(ps.take(k), recs, v4, v6) is Ok,
        first_match(recs, ps[k].0, ps[k].1) == Some(m),
        (m.record_type@ == seq!['A'] && v4 is None) || (m.record_type@ == seq!['A', 'A', 'A', 'A']
            && v6 is None),
    ensures
        classify(ps, recs, v4, v6) == Err::<PartitionView, ReconcileError>(
            ReconcileError::NoComparableAddress(m.record_type),
        ),
{
    assert(ps.take(k + 1).drop_last() =~= ps.take(k));
    assert(ps.take(k + 1).last() == ps[k]);
    if m.record_type@ == seq!['A'] {
        assert(seq!['A'].len() != seq!['A', 'A', 'A', 'A'].len());
    }
    assert(classify(ps.take(k + 1), recs, v4, v6) == Err::<PartitionView, ReconcileError>(
        ReconcileError::NoComparableAddress(m.record_type),
    ));
    lemma_classify_err_prefix(ps, k + 1, recs, v4, v6);
}

/// Once a prefix of the pairs fails, every longer prefix fails the same way.
proof fn lemma_classify_err_prefix(
    ps: Seq<(Seq<char>, Seq<char>)>,
    k: int,
    recs: Seq<LiveRecord>,
    v4: Option<Seq<char>>,
    v6: Option<Seq<char>>,
)
    requires
        0 <= k <= ps.len(),
        classify(ps.take(k), recs, v4, v6) is Err,
    ensures
        classify(ps, recs, v4, v6) == classify(ps.take(k), recs, v4, v6),
    decreases ps.len() - k,
{
    if k < ps.len() {
        assert(ps.take(k + 1).drop_last() =~= ps.take(k));
        lemma_classify_err_prefix(ps, k + 1, recs, v4, v6);
    } else {
        assert(ps.take(k) =~= ps);
    }
}

} // verus!
