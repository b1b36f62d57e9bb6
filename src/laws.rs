use vstd::prelude::*;
use crate::diary::{Record, entries_match, fresh_records, holds_record};
use crate::entry::DiaryEntry;
use crate::storage::{RowKey, is_latest_version, key_of, upsert_all};

verus! {

proof fn lemma_upsert_all_keeps(m: Map<RowKey, DiaryEntry>, es: Seq<DiaryEntry>, k: RowKey)
    requires
        m.contains_key(k),
        forall|i: int| 0 <= i < es.len() ==> key_of(#[trigger] es[i]) != k,
    ensures
        upsert_all(m, es).contains_key(k),
        upsert_all(m, es)[k] == m[k],
    decreases es.len(),
{
    if es.len() > 0 {
        lemma_upsert_all_keeps(m, es.drop_last(), k);
        assert(key_of(es[es.len() - 1]) != k);
    }
}

proof fn lemma_upsert_all_dom(m: Map<RowKey, DiaryEntry>, es: Seq<DiaryEntry>, k: RowKey)
    requires
        upsert_all(m, es).contains_key(k),
    ensures
        m.contains_key(k) || exists|i: int| 0 <= i < es.len() && key_of(#[trigger] es[i]) == k,
    decreases es.len(),
{
    if es.len() > 0 {
        if k != key_of(es.last()) {
            lemma_upsert_all_dom(m, es.drop_last(), k);
            if !m.contains_key(k) {
                let i = choose|i: int| 0 <= i < es.len() - 1 && key_of(#[trigger] es.drop_last()[i]) == k;
                assert(key_of(es[i]) == k);
            }
        } else {
            assert(key_of(es[es.len() - 1]) == k);
        }
    }
}

proof fn lemma_upsert_all_has(m: Map<RowKey, DiaryEntry>, es: Seq<DiaryEntry>, i: int)
    requires
        0 <= i < es.len(),
    ensures
        upsert_all(m, es).contains_key(key_of(es[i])),
        exists|j: int|
            i <= j < es.len() && key_of(#[trigger] es[j]) == key_of(es[i]) && upsert_all(m, es)[key_of(
                es[i],
            )] == es[j],
    decreases es.len(),
{
    let last = es.len() - 1;
    if i == last || key_of(es[last]) == key_of(es[i]) {
        assert(key_of(es[last]) == key_of(es[i]));
    } else {
        lemma_upsert_all_has(m, es.drop_last(), i);
        let j = choose|j: int|
            i <= j < es.len() - 1 && key_of(#[trigger] es.drop_last()[j]) == key_of(es[i])
                && upsert_all(m, es.drop_last())[key_of(es[i])] == es.drop_last()[j];
        assert(key_of(es[j]) == key_of(es[i]));
    }
}

proof fn lemma_fresh_from(m: Map<RowKey, DiaryEntry>, xs: Seq<Record>)
    ensures
        forall|t: int|
            0 <= t < fresh_records(m, xs).len() ==> xs.contains(#[trigger] fresh_records(m, xs)[t]),
        forall|i: int|
            0 <= i < xs.len() ==> holds_record(m, #[trigger] xs[i]) || fresh_records(
                m,
                xs,
            ).contains(xs[i]),
    decreases xs.len(),
{
    if xs.len() > 0 {
        let pre = xs.drop_last();
        lemma_fresh_from(m, pre);
        let f = fresh_records(m, xs);
        let fp = fresh_records(m, pre);
        assert forall|t: int| 0 <= t < f.len() implies xs.contains(#[trigger] f[t]) by {
            if t < fp.len() {
                assert(f[t] == fp[t]);
                let a = choose|a: int| 0 <= a < pre.len() && pre[a] == fp[t];
                assert(xs[a] == f[t]);
            } else {
                assert(xs[xs.len() - 1] == f[t]);
            }
        }
        assert forall|i: int| 0 <= i < xs.len() implies holds_record(m, #[trigger] xs[i])
            || f.contains(xs[i]) by {
            if i < pre.len() {
                assert(pre[i] == xs[i]);
                if fp.contains(xs[i]) {
                    let a = choose|a: int| 0 <= a < fp.len() && fp[a] == xs[i];
                    assert(f[a] == xs[i]);
                }
            } else if !holds_record(m, xs[i]) {
                assert(f[f.len() - 1] == xs[i]);
            }
        }
    }
}

proof fn lemma_fresh_none(m: Map<RowKey, DiaryEntry>, xs: Seq<Record>)
    requires
        forall|i: int| 0 <= i < xs.len() ==> holds_record(m, #[trigger] xs[i]),
    ensures
        fresh_records(m, xs).len() == 0,
    decreases xs.len(),
{
    if xs.len() > 0 {
        let pre = xs.drop_last();
        assert forall|i: int| 0 <= i < pre.len() implies holds_record(m, #[trigger] pre[i]) by {
            assert(pre[i] == xs[i]);
        }
        lemma_fresh_none(m, pre);
        assert(holds_record(m, xs[xs.len() - 1]));
    }
}

/// Running synchronization a second time over the same sources adds no row:
/// the records that the first run left unstored were already held, and the
/// ones it stored are held now. This needs that no two sources yield the same
/// date with different content, since within a run the later of two such
/// entries replaces the earlier.
pub proof fn lemma_resync_adds_nothing(
    m: Map<RowKey, DiaryEntry>,
    xs: Seq<Record>,
    first: Seq<DiaryEntry>,
    v: i64,
    second: Seq<DiaryEntry>,
    w: i64,
)
    requires
        forall|k: RowKey| m.contains_key(k) ==> k.1 < v,
        entries_match(first, fresh_records(m, xs), v),
        entries_match(second, fresh_records(upsert_all(m, first), xs), w),
        forall|i: int, j: int|
            0 <= i < xs.len() && 0 <= j < xs.len() && (#[trigger] xs[i]).0 == (#[trigger] xs[j]).0
                ==> xs[i].1 == xs[j].1,
    ensures
        second.len() == 0,
        upsert_all(upsert_all(m, first), second) == upsert_all(m, first),
{
    let m1 = upsert_all(m, first);
    let f = fresh_records(m, xs);
    lemma_fresh_from(m, xs);
    assert forall|i: int| 0 <= i < xs.len() implies holds_record(m1, #[trigger] xs[i]) by {
        if holds_record(m, xs[i]) {
            let k = choose|k: RowKey|
                m.contains_key(k) && m[k].date == xs[i].0 && #[trigger] m[k].content@ == xs[i].1;
            assert forall|a: int| 0 <= a < first.len() implies key_of(#[trigger] first[a]) != k by {
                assert(first[a].exec_version == v);
            }
            lemma_upsert_all_keeps(m, first, k);
            assert(m1[k].content@ == xs[i].1);
        } else {
            let t = choose|t: int| 0 <= t < f.len() && f[t] == xs[i];
            lemma_upsert_all_has(m, first, t);
            let k = key_of(first[t]);
            let j = choose|j: int|
                t <= j < first.len() && key_of(#[trigger] first[j]) == k && m1[k] == first[j];
            assert(f.contains(f[j]));
            assert(xs.contains(f[j]));
            let a = choose|a: int| 0 <= a < xs.len() && xs[a] == f[j];
            assert(xs[a].0 == xs[i].0);
            assert(m1[k].content@ == xs[i].1);
        }
    }
    lemma_fresh_none(m1, xs);
}

/// Each run's version is one more than the largest stored version, so the rows
/// it writes carry a version larger than every earlier row's, and it becomes
/// the largest stored version.
pub proof fn lemma_version_advances(m: Map<RowKey, DiaryEntry>, prior: i64, stored: Seq<DiaryEntry>)
    requires
        prior < i64::MAX,
        is_latest_version(m, prior),
        stored.len() > 0,
        forall|i: int| 0 <= i < stored.len() ==> (#[trigger] stored[i]).exec_version == prior + 1,
    ensures
        forall|k: RowKey| m.contains_key(k) ==> k.1 < prior + 1,
        is_latest_version(upsert_all(m, stored), (prior + 1) as i64),
{
    let m1 = upsert_all(m, stored);
    let v = (prior + 1) as i64;
    assert forall|k: RowKey| m.contains_key(k) implies k.1 < prior + 1 by {
        if !m.dom().is_empty() {
        } else {
            assert(m.dom().contains(k));
        }
    }
    lemma_upsert_all_has(m, stored, 0);
    assert(m1.contains_key(key_of(stored[0])));
    assert(m1.dom().contains(key_of(stored[0])));
    assert forall|k: RowKey| m1.contains_key(k) implies k.1 <= v by {
        lemma_upsert_all_dom(m, stored, k);
        if !m.contains_key(k) {
            let i = choose|i: int| 0 <= i < stored.len() && key_of(#[trigger] stored[i]) == k;
        }
    }
}

/// A source whose date and content are already stored adds no row; one with a
/// stored date but new content adds exactly one row, at the run's version.
pub proof fn lemma_dedup_single(m: Map<RowKey, DiaryEntry>, x: Record, stored: Seq<DiaryEntry>, v: i64)
    requires
        forall|k: RowKey| m.contains_key(k) ==> k.1 < v,
        entries_match(stored, fresh_records(m, seq![x]), v),
    ensures
        holds_record(m, x) ==> upsert_all(m, stored) == m,
        !holds_record(m, x) ==> {
            &&& !m.contains_key((x.0, v))
            &&& stored.len() == 1
            &&& upsert_all(m, stored) == m.insert((x.0, v), stored[0])
            &&& stored[0].content@ == x.1
            &&& stored[0].date == x.0
        },
{
    let xs = seq![x];
    assert(xs.drop_last() =~= Seq::<Record>::empty());
    assert(fresh_records(m, xs.drop_last()).len() == 0);
    if holds_record(m, x) {
        assert(stored.len() == 0);
    } else {
        assert(fresh_records(m, xs) =~= seq![x]);
        assert(stored.drop_last() =~= Seq::<DiaryEntry>::empty());
        assert(key_of(stored[0]) == (x.0, v));
        assert(upsert_all(m, stored.drop_last()) == m);
        assert(stored.last() == stored[0]);
        if m.contains_key((x.0, v)) {
            assert((x.0, v).1 < v);
        }
    }
}

/// A batch whose keys are distinct is visible whole after it is stored: each
/// of its entries is the row under its key.
pub proof fn lemma_batch_visible(m: Map<RowKey, DiaryEntry>, es: Seq<DiaryEntry>)
    requires
        forall|i: int, j: int|
            0 <= i < j < es.len() ==> key_of(#[trigger] es[i]) != key_of(#[trigger] es[j]),
    ensures
        forall|i: int|
            0 <= i < es.len() ==> upsert_all(m, es).contains_key(key_of(#[trigger] es[i]))
                && upsert_all(m, es)[key_of(es[i])] == es[i],
{
    assert forall|i: int| 0 <= i < es.len() implies upsert_all(m, es).contains_key(
        key_of(#[trigger] es[i]),
    ) && upsert_all(m, es)[key_of(es[i])] == es[i] by {
        lemma_upsert_all_has(m, es, i);
        let j = choose|j: int|
            i <= j < es.len() && key_of(#[trigger] es[j]) == key_of(es[i]) && upsert_all(m, es)[key_of(
                es[i],
            )] == es[j];
        if j != i {
            assert(key_of(es[i]) != key_of(es[j]));
        }
    }
}

} // verus!
