//! One pass over a block's transactions: fee bounds and sum, and how often
//! each transaction type, and each type with each version, occurs.
use vstd::prelude::*;
use vstd::string::*;
use crate::error::{BlockFetchErr, FetchErrView, result_view};
use crate::hex::{hex_of_json, parse_hex_field};
use crate::json::{Json, field_of, get_field};

verus! {

/// What the decoder takes from one transaction: its fee, type and version.
pub type TxRecord = (u64, Seq<char>, u64);

/// Reads one transaction. An absent `max_fee` counts as zero; `type` must be
/// a string and `version` a hexadecimal string.
pub open spec fn tx_record(tx: Json) -> Result<TxRecord, FetchErrView> {
    let fee = match field_of(tx, "max_fee"@) {
        None => Ok(0u64),
        Some(f) => hex_of_json(f, "max_fee"@),
    };
    match fee {
        Err(e) => Err(e),
        Ok(fee) => match field_of(tx, "type"@) {
            None => Err(FetchErrView::MissingField("type"@)),
            Some(Json::Str(t)) => match field_of(tx, "version"@) {
                None => Err(FetchErrView::MissingField("version"@)),
                Some(v) => match hex_of_json(v, "version"@) {
                    Err(e) => Err(e),
                    Ok(ver) => Ok((fee, t@, ver)),
                },
            },
            Some(_) => Err(FetchErrView::FieldTypeFail("type"@)),
        },
    }
}

/// Reads every transaction in order; the first failure fails the whole list.
pub open spec fn tx_records(txs: Seq<Json>) -> Result<Seq<TxRecord>, FetchErrView>
    decreases txs.len(),
{
    if txs.len() == 0 {
        Ok(seq![])
    } else {
        match tx_records(txs.drop_last()) {
            Err(e) => Err(e),
            Ok(rs) => match tx_record(txs.last()) {
                Err(e) => Err(e),
                Ok(r) => Ok(rs.push(r)),
            },
        }
    }
}

/// The smallest fee; zero when there is no transaction.
pub open spec fn fee_min(rs: Seq<TxRecord>) -> u64
    decreases rs.len(),
{
    if rs.len() == 0 {
        0
    } else if rs.len() == 1 || rs.last().0 < fee_min(rs.drop_last()) {
        rs.last().0
    } else {
        fee_min(rs.drop_last())
    }
}

/// The largest fee; zero when there is no transaction.
pub open spec fn fee_max(rs: Seq<TxRecord>) -> u64
    decreases rs.len(),
{
    if rs.len() == 0 {
        0
    } else if rs.len() == 1 || rs.last().0 > fee_max(rs.drop_last()) {
        rs.last().0
    } else {
        fee_max(rs.drop_last())
    }
}

pub open spec fn fee_sum(rs: Seq<TxRecord>) -> nat
    decreases rs.len(),
{
    if rs.len() == 0 {
        0
    } else {
        fee_sum(rs.drop_last()) + rs.last().0 as nat
    }
}

/// How many transactions have type `t`.
pub open spec fn type_count(rs: Seq<TxRecord>, t: Seq<char>) -> nat
    decreases rs.len(),
{
    if rs.len() == 0 {
        0
    } else {
        type_count(rs.drop_last(), t) + if rs.last().1 == t { 1nat } else { 0nat }
    }
}

/// How many transactions have type `t` and version `v`.
pub open spec fn type_version_count(rs: Seq<TxRecord>, t: Seq<char>, v: u64) -> nat
    decreases rs.len(),
{
    if rs.len() == 0 {
        0
    } else {
        type_version_count(rs.drop_last(), t, v) + if rs.last().1 == t && rs.last().2 == v {
            1nat
        } else {
            0nat
        }
    }
}

/// `types` counts the types of `rs`: one entry per type seen, none other.
pub open spec fn type_histogram(types: Seq<(String, usize)>, rs: Seq<TxRecord>) -> bool {
    &&& forall|i: int, j: int|
        0 <= i < j < types.len() ==> #[trigger] types[i].0@ != #[trigger] types[j].0@
    &&& forall|i: int|
        0 <= i < types.len() ==> #[trigger] types[i].1 as nat == type_count(rs, types[i].0@)
            && types[i].1 > 0
    &&& forall|k: int| 0 <= k < rs.len() ==> #[trigger] has_type(types, rs[k].1)
}

/// Some entry of `types` is for type `t`.
pub open spec fn has_type(types: Seq<(String, usize)>, t: Seq<char>) -> bool {
    exists|i: int| 0 <= i < types.len() && #[trigger] types[i].0@ == t
}

/// Some entry of `pairs` is for type `t` with version `v`.
pub open spec fn has_pair(pairs: Seq<(String, u64, usize)>, t: Seq<char>, v: u64) -> bool {
    exists|i: int| 0 <= i < pairs.len() && #[trigger] pairs[i].0@ == t && pairs[i].1 == v
}

/// `pairs` counts the (type, version) pairs of `rs`: one entry per pair seen.
pub open spec fn type_version_histogram(pairs: Seq<(String, u64, usize)>, rs: Seq<TxRecord>) -> bool {
    &&& forall|i: int, j: int|
        0 <= i < j < pairs.len() ==> !(#[trigger] pairs[i].0@ == #[trigger] pairs[j].0@ && pairs[i].1 == pairs[j].1)
    &&& forall|i: int|
        0 <= i < pairs.len() ==> #[trigger] pairs[i].2 as nat == type_version_count(rs, pairs[i].0@, pairs[i].1)
            && pairs[i].2 > 0
    &&& forall|k: int| 0 <= k < rs.len() ==> #[trigger] has_pair(pairs, rs[k].1, rs[k].2)
}

/// Statistics over the transactions of one block.
pub struct TransactionStats {
    pub tx_count: usize,
    /// Smallest `max_fee`, in wei; zero for a block without transactions.
    pub fee_min: u64,
    /// Largest `max_fee`, in wei; zero for a block without transactions.
    pub fee_max: u64,
    /// Sum of all `max_fee`, in wei.
    pub fee_sum: u128,
    /// Each type seen, with its count, in order of first appearance.
    pub types: Vec<(String, usize)>,
    /// Each (type, version) pair seen, with its count, in order of first appearance.
    pub type_versions: Vec<(String, u64, usize)>,
}

/// `s` holds the statistics of `rs`.
pub open spec fn stats_of(s: TransactionStats, rs: Seq<TxRecord>) -> bool {
    &&& s.tx_count == rs.len()
    &&& s.fee_min == fee_min(rs)
    &&& s.fee_max == fee_max(rs)
    &&& s.fee_sum == fee_sum(rs)
    &&& type_histogram(s.types@, rs)
    &&& type_version_histogram(s.type_versions@, rs)
}

fn read_tx(tx: &Json) -> (r: Result<(u64, String, u64), BlockFetchErr>)
    ensures
        match r {
            Ok(v) => tx_record(*tx) == Ok::<TxRecord, FetchErrView>((v.0, v.1@, v.2)),
            Err(e) => tx_record(*tx) == Err::<TxRecord, FetchErrView>(e@),
        },
{
    let fee = match get_field(tx, "max_fee") {
        None => 0,
        Some(f) => match parse_hex_field(f, "max_fee") {
            Ok(x) => x,
            Err(e) => return Err(e),
        },
    };
    let kind = match get_field(tx, "type") {
        None => return Err(BlockFetchErr::MissingField(String::from_str("type"))),
        Some(Json::Str(t)) => t.clone(),
        Some(_) => return Err(BlockFetchErr::FieldTypeFail(String::from_str("type"))),
    };
    let version = match get_field(tx, "version") {
        None => return Err(BlockFetchErr::MissingField(String::from_str("version"))),
        Some(v) => match parse_hex_field(v, "version") {
            Ok(x) => x,
            Err(e) => return Err(e),
        },
    };
    Ok((fee, kind, version))
}

proof fn lemma_counts_push(rs: Seq<TxRecord>, r: TxRecord)
    ensures
        forall|u: Seq<char>|
            #[trigger] type_count(rs.push(r), u) == type_count(rs, u) + if r.1 == u { 1nat } else { 0nat },
        forall|u: Seq<char>, v: u64|
            #[trigger] type_version_count(rs.push(r), u, v) == type_version_count(rs, u, v) + if r.1 == u && r.2 == v {
                1nat
            } else {
                0nat
            },
{
    assert(rs.push(r).drop_last() =~= rs);
}

proof fn lemma_counts_bounded(rs: Seq<TxRecord>)
    ensures
        forall|u: Seq<char>| #[trigger] type_count(rs, u) <= rs.len(),
        forall|u: Seq<char>, v: u64| #[trigger] type_version_count(rs, u, v) <= rs.len(),
    decreases rs.len(),
{
    if rs.len() > 0 {
        lemma_counts_bounded(rs.drop_last());
        assert forall|u: Seq<char>| #[trigger] type_count(rs, u) <= rs.len() by {
            assert(type_count(rs.drop_last(), u) <= rs.drop_last().len());
        }
        assert forall|u: Seq<char>, v: u64| #[trigger] type_version_count(rs, u, v) <= rs.len() by {
            assert(type_version_count(rs.drop_last(), u, v) <= rs.drop_last().len());
        }
    }
}

proof fn lemma_counted_means_seen(rs: Seq<TxRecord>, u: Seq<char>, v: u64)
    ensures
        type_count(rs, u) > 0 ==> exists|k: int| 0 <= k < rs.len() && #[trigger] rs[k].1 == u,
        type_version_count(rs, u, v) > 0 ==> exists|k: int|
            0 <= k < rs.len() && #[trigger] rs[k].1 == u && rs[k].2 == v,
    decreases rs.len(),
{
    if rs.len() > 0 {
        let last = rs.len() - 1;
        lemma_counted_means_seen(rs.drop_last(), u, v);
        if type_count(rs.drop_last(), u) > 0 {
            let k = choose|k: int| 0 <= k < rs.drop_last().len() && #[trigger] rs.drop_last()[k].1 == u;
            assert(rs[k].1 == u);
        } else if type_count(rs, u) > 0 {
            assert(rs[last].1 == u);
        }
        if type_version_count(rs.drop_last(), u, v) > 0 {
            let k = choose|k: int|
                0 <= k < rs.drop_last().len() && #[trigger] rs.drop_last()[k].1 == u && rs.drop_last()[k].2 == v;
            assert(rs[k].1 == u && rs[k].2 == v);
        } else if type_version_count(rs, u, v) > 0 {
            assert(rs[last].1 == u && rs[last].2 == v);
        }
    }
}

fn find_type(types: &Vec<(String, usize)>, t: &String) -> (r: Option<usize>)
    ensures
        match r {
            Some(j) => j < types@.len() && types@[j as int].0@ == t@,
            None => forall|i: int| 0 <= i < types@.len() ==> (#[trigger] types@[i]).0@ != t@,
        },
{
    let mut j: usize = 0;
    while j < types.len()
        invariant
            0 <= j <= types@.len(),
            forall|i: int| 0 <= i < j ==> (#[trigger] types@[i]).0@ != t@,
        decreases types@.len() - j,
    {
        if types[j].0 == *t {
            return Some(j);
        }
        j = j + 1;
    }
    None
}

fn add_type(types: &mut Vec<(String, usize)>, t: &String, Ghost(rs): Ghost<Seq<TxRecord>>, Ghost(r): Ghost<TxRecord>)
    requires
        type_histogram(old(types)@, rs),
        r.1 == t@,
        rs.len() < usize::MAX,
    ensures
        type_histogram(final(types)@, rs.push(r)),
{
    let ghost before = types@;
    let ghost after = rs.push(r);
    proof {
        lemma_counts_push(rs, r);
        lemma_counts_bounded(rs);
    }
    match find_type(types, t) {
        Some(j) => {
            let c = types[j].1;
            assert(c as nat == type_count(rs, t@));
            types.set(j, (t.clone(), c + 1));
            proof {
                let now = types@;
                assert forall|i: int| 0 <= i < now.len() implies (#[trigger] now[i]).0@ == before[i].0@ by {}
                assert forall|i: int| 0 <= i < now.len() implies #[trigger] now[i].1 as nat == type_count(after, now[i].0@)
                    && now[i].1 > 0 by {
                    if i != j {
                        if i < j {
                            assert(before[i].0@ != before[j as int].0@);
                        } else {
                            assert(before[j as int].0@ != before[i].0@);
                        }
                    }
                }
                assert forall|k: int| 0 <= k < after.len() implies #[trigger] has_type(now, after[k].1) by {
                    if k < rs.len() {
                        assert(after[k] == rs[k]);
                        assert(has_type(before, rs[k].1));
                        let i = choose|i: int| 0 <= i < before.len() && #[trigger] before[i].0@ == rs[k].1;
                        assert(now[i].0@ == after[k].1);
                    } else {
                        assert(now[j as int].0@ == after[k].1);
                    }
                }
                assert forall|i: int, i2: int| 0 <= i < i2 < now.len() implies #[trigger] now[i].0@ != #[trigger] now[i2].0@ by {
                    assert(now[i].0@ == before[i].0@);
                    assert(now[i2].0@ == before[i2].0@);
                }
                assert(type_histogram(now, after));
            }
            return;
        },
        None => {},
    }
    proof {
        lemma_counted_means_seen(rs, t@, 0);
        if type_count(rs, t@) > 0 {
            let k = choose|k: int| 0 <= k < rs.len() && #[trigger] rs[k].1 == t@;
            assert(has_type(before, rs[k].1));
            let i = choose|i: int| 0 <= i < before.len() && #[trigger] before[i].0@ == rs[k].1;
            assert(before[i].0@ != t@);
        }
    }
    types.push((t.clone(), 1));
    proof {
        let now = types@;
        assert forall|i: int| 0 <= i < now.len() implies #[trigger] now[i].1 as nat == type_count(after, now[i].0@)
            && now[i].1 > 0 by {
            if i < before.len() {
                assert(now[i] == before[i]);
            }
        }
        assert forall|k: int| 0 <= k < after.len() implies #[trigger] has_type(now, after[k].1) by {
            if k < rs.len() {
                assert(after[k] == rs[k]);
                assert(has_type(before, rs[k].1));
                let i = choose|i: int| 0 <= i < before.len() && #[trigger] before[i].0@ == rs[k].1;
                assert(now[i] == before[i]);
            } else {
                assert(now[before.len() as int].0@ == after[k].1);
            }
        }
        assert forall|i: int, i2: int| 0 <= i < i2 < now.len() implies #[trigger] now[i].0@ != #[trigger] now[i2].0@ by {
            assert(now[i] == before[i]);
            if i2 < before.len() {
                assert(now[i2] == before[i2]);
            }
        }
        assert(type_histogram(now, after));
    }
}

fn find_pair(pairs: &Vec<(String, u64, usize)>, t: &String, v: u64) -> (r: Option<usize>)
    ensures
        match r {
            Some(j) => j < pairs@.len() && pairs@[j as int].0@ == t@ && pairs@[j as int].1 == v,
            None => forall|i: int| 0 <= i < pairs@.len() ==> !((#[trigger] pairs@[i]).0@ == t@ && pairs@[i].1 == v),
        },
{
    let mut j: usize = 0;
    while j < pairs.len()
        invariant
            0 <= j <= pairs@.len(),
            forall|i: int| 0 <= i < j ==> !((#[trigger] pairs@[i]).0@ == t@ && pairs@[i].1 == v),
        decreases pairs@.len() - j,
    {
        if pairs[j].0 == *t && pairs[j].1 == v {
            return Some(j);
        }
        j = j + 1;
    }
    None
}

fn add_pair(
    pairs: &mut Vec<(String, u64, usize)>,
    t: &String,
    v: u64,
    Ghost(rs): Ghost<Seq<TxRecord>>,
    Ghost(r): Ghost<TxRecord>,
)
    requires
        type_version_histogram(old(pairs)@, rs),
        r.1 == t@,
        r.2 == v,
        rs.len() < usize::MAX,
    ensures
        type_version_histogram(final(pairs)@, rs.push(r)),
{
    let ghost before = pairs@;
    let ghost after = rs.push(r);
    proof {
        lemma_counts_push(rs, r);
        lemma_counts_bounded(rs);
    }
    match find_pair(pairs, t, v) {
        Some(j) => {
            let c = pairs[j].2;
            assert(c as nat == type_version_count(rs, t@, v));
            pairs.set(j, (t.clone(), v, c + 1));
            proof {
                let now = pairs@;
                assert forall|i: int| 0 <= i < now.len() implies (#[trigger] now[i]).0@ == before[i].0@
                    && now[i].1 == before[i].1 by {}
                assert forall|i: int| 0 <= i < now.len() implies #[trigger] now[i].2 as nat == type_version_count(
                    after,
                    now[i].0@,
                    now[i].1,
                ) && now[i].2 > 0 by {
                    if i != j {
                        if i < j {
                            assert(!(before[i].0@ == before[j as int].0@ && before[i].1 == before[j as int].1));
                        } else {
                            assert(!(before[j as int].0@ == before[i].0@ && before[j as int].1 == before[i].1));
                        }
                    }
                }
                assert forall|k: int| 0 <= k < after.len() implies #[trigger] has_pair(now, after[k].1, after[k].2) by {
                    if k < rs.len() {
                        assert(after[k] == rs[k]);
                        assert(has_pair(before, rs[k].1, rs[k].2));
                        let i = choose|i: int| 0 <= i < before.len() && #[trigger] before[i].0@ == rs[k].1 && before[i].1 == rs[k].2;
                        assert(now[i].0@ == after[k].1 && now[i].1 == after[k].2);
                    } else {
                        assert(now[j as int].0@ == after[k].1 && now[j as int].1 == after[k].2);
                    }
                }
                assert forall|i: int, i2: int| 0 <= i < i2 < now.len() implies !(#[trigger] now[i].0@ == #[trigger] now[i2].0@
                    && now[i].1 == now[i2].1) by {
                    assert(now[i].0@ == before[i].0@ && now[i].1 == before[i].1);
                    assert(now[i2].0@ == before[i2].0@ && now[i2].1 == before[i2].1);
                }
            }
            return;
        },
        None => {},
    }
    proof {
        lemma_counted_means_seen(rs, t@, v);
        if type_version_count(rs, t@, v) > 0 {
            let k = choose|k: int| 0 <= k < rs.len() && #[trigger] rs[k].1 == t@ && rs[k].2 == v;
            assert(has_pair(before, rs[k].1, rs[k].2));
            let i = choose|i: int| 0 <= i < before.len() && #[trigger] before[i].0@ == rs[k].1 && before[i].1 == rs[k].2;
            assert(!(before[i].0@ == t@ && before[i].1 == v));
        }
    }
    pairs.push((t.clone(), v, 1));
    proof {
        let now = pairs@;
        assert forall|i: int| 0 <= i < now.len() implies #[trigger] now[i].2 as nat == type_version_count(
            after,
            now[i].0@,
            now[i].1,
        ) && now[i].2 > 0 by {
            if i < before.len() {
                assert(now[i] == before[i]);
            }
        }
        assert forall|k: int| 0 <= k < after.len() implies #[trigger] has_pair(now, after[k].1, after[k].2) by {
            if k < rs.len() {
                assert(after[k] == rs[k]);
                assert(has_pair(before, rs[k].1, rs[k].2));
                let i = choose|i: int| 0 <= i < before.len() && #[trigger] before[i].0@ == rs[k].1 && before[i].1 == rs[k].2;
                assert(now[i] == before[i]);
            } else {
                assert(now[before.len() as int].0@ == after[k].1 && now[before.len() as int].1 == after[k].2);
            }
        }
        assert forall|i: int, i2: int| 0 <= i < i2 < now.len() implies !(#[trigger] now[i].0@ == #[trigger] now[i2].0@
            && now[i].1 == now[i2].1) by {
            assert(now[i] == before[i]);
            if i2 < before.len() {
                assert(now[i2] == before[i2]);
            }
        }
    }
}

proof fn lemma_fee_sum_bounded(rs: Seq<TxRecord>)
    ensures
        fee_sum(rs) <= rs.len() * (u64::MAX as nat),
    decreases rs.len(),
{
    if rs.len() > 0 {
        lemma_fee_sum_bounded(rs.drop_last());
        assert(fee_sum(rs) <= rs.len() * (u64::MAX as nat)) by (nonlinear_arith)
            requires
                fee_sum(rs) == fee_sum(rs.drop_last()) + rs.last().0 as nat,
                fee_sum(rs.drop_last()) <= rs.drop_last().len() * (u64::MAX as nat),
                rs.drop_last().len() + 1 == rs.len(),
                rs.last().0 <= u64::MAX,
        ;
    }
}

/// Scans the transactions once. Fails with the first transaction that
/// cannot be read; otherwise returns their statistics.
pub fn collect_stats(txs: &Vec<Json>) -> (r: Result<TransactionStats, BlockFetchErr>)
    ensures
        match tx_records(txs@) {
            Ok(rs) => r matches Ok(s) && stats_of(s, rs),
            Err(e) => r matches Err(err) && err@ == e,
        },
{
    let mut stats = TransactionStats {
        tx_count: 0,
        fee_min: 0,
        fee_max: 0,
        fee_sum: 0,
        types: Vec::new(),
        type_versions: Vec::new(),
    };
    let ghost mut rs: Seq<TxRecord> = seq![];
    let mut i: usize = 0;
    while i < txs.len()
        invariant
            0 <= i <= txs@.len(),
            tx_records(txs@.subrange(0, i as int)) == Ok::<Seq<TxRecord>, FetchErrView>(rs),
            rs.len() == i,
            stats_of(stats, rs),
        decreases txs@.len() - i,
    {
        let ghost pre = txs@.subrange(0, i as int);
        assert(txs@.subrange(0, i + 1).drop_last() =~= pre);
        assert(txs@.subrange(0, i + 1).last() == txs@[i as int]);
        let (fee, kind, version) = match read_tx(&txs[i]) {
            Ok(rec) => rec,
            Err(e) => {
                proof {
                    lemma_records_fail_on(txs@, i as int);
                }
                return Err(e);
            },
        };
        let ghost rec: TxRecord = (fee, kind@, version);
        let ghost next = rs.push(rec);
        assert(next.drop_last() =~= rs);
        assert(next.last() == rec);
        add_type(&mut stats.types, &kind, Ghost(rs), Ghost(rec));
        add_pair(&mut stats.type_versions, &kind, version, Ghost(rs), Ghost(rec));
        if i == 0 || fee < stats.fee_min {
            stats.fee_min = fee;
        }
        if i == 0 || fee > stats.fee_max {
            stats.fee_max = fee;
        }
        proof {
            lemma_fee_sum_bounded(next);
            assert(next.len() * (u64::MAX as nat) <= u128::MAX) by (nonlinear_arith)
                requires
                    next.len() <= usize::MAX,
                    usize::MAX <= u64::MAX,
            ;
        }
        stats.fee_sum = stats.fee_sum + fee as u128;
        stats.tx_count = i + 1;
        proof {
            rs = next;
        }
        i = i + 1;
    }
    assert(txs@.subrange(0, i as int) =~= txs@);
    Ok(stats)
}

/// Once a transaction fails to read, the whole list fails.
proof fn lemma_records_fail_on(txs: Seq<Json>, i: int)
    requires
        0 <= i < txs.len(),
        tx_records(txs.subrange(0, i)) is Ok,
        tx_record(txs[i]) is Err,
    ensures
        tx_records(txs) == Err::<Seq<TxRecord>, FetchErrView>(tx_record(txs[i])->Err_0),
    decreases txs.len(),
{
    if i == txs.len() - 1 {
        assert(txs.drop_last() =~= txs.subrange(0, i));
    } else {
        assert(txs.drop_last().subrange(0, i) =~= txs.subrange(0, i));
        lemma_records_fail_on(txs.drop_last(), i);
    }
}

} // verus!
