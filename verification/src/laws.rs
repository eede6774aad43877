//! What holds of the store whatever it is asked: the laws that its
//! operations obey together.

use crate::account::{all_clean, lemma_replay_dir_accounts};
use crate::codec::{encode_record, round_trips, Record};
use crate::dir::{appended, gen_at, has_gen, lemma_gen_at, total_size};
use crate::error::KvsError;
use crate::index::is_listing;
use crate::reader::KvStoreReader;
use crate::names::{all_digits, decimal, decimal_value, log_suffix, name_gen};
use crate::replay::{
    clean_from, empty_state, entry_valid, index_valid, kept, lemma_dir_push_empty,
    lemma_replay_dir_valid, lemma_replay_log_append, replay_dir,
};
use crate::store::{answer, effect, lookup, KvStore};
use crate::writer::{compacted, compaction_due, live_size, written};
use vstd::prelude::*;

verus! {

/// The live keys and values after the operations `ops` are handed to a store
/// that holds `m`, one after the other.
pub open spec fn run(m: Map<Seq<char>, Seq<char>>, ops: Seq<Record>) -> Map<Seq<char>, Seq<char>>
    decreases ops.len(),
{
    if ops.len() == 0 {
        m
    } else {
        effect(run(m, ops.drop_last()), ops.last())
    }
}

/// The last operation of `ops` on `key` that can be written.
pub open spec fn last_write(ops: Seq<Record>, key: Seq<char>) -> Option<Record>
    decreases ops.len(),
{
    if ops.len() == 0 {
        None
    } else if ops.last().key() == key && round_trips(ops.last()) {
        Some(ops.last())
    } else {
        last_write(ops.drop_last(), key)
    }
}

/// After any operations, a key is bound to the value of the last `set` of
/// that key, unless a `remove` of the key came after it; a key that the
/// operations did not touch is bound as it was.
pub proof fn law_last_write_wins(m: Map<Seq<char>, Seq<char>>, ops: Seq<Record>, key: Seq<char>)
    ensures
        lookup(run(m, ops), key) == (match last_write(ops, key) {
            Some(Record::Put { value, .. }) => Some(value),
            Some(Record::Remove { .. }) => None,
            None => lookup(m, key),
        }),
    decreases ops.len(),
{
    if ops.len() > 0 {
        law_last_write_wins(m, ops.drop_last(), key);
    }
}

/// What the operation `op` makes of the store `before`: a `Put` is what
/// `set` does, a `Remove` what `remove` does.
#[verifier::opaque]
pub open spec fn op_post(before: KvStore, op: Record, after: KvStore, r: Result<(), KvsError>) -> bool {
    match op {
        Record::Put { key, value } => KvStore::set_post(before, key, value, after, r),
        Record::Remove { key } => KvStore::remove_post(before, key, after, r),
    }
}

/// Whether `states` are the states that a store goes through as the
/// operations `ops` are done to it, one after the other, with the results
/// `results`.
pub open spec fn is_trace(
    states: Seq<KvStore>,
    ops: Seq<Record>,
    results: Seq<Result<(), KvsError>>,
) -> bool {
    &&& states.len() == ops.len() + 1
    &&& results.len() == ops.len()
    &&& forall|i: int|
        0 <= i < ops.len() ==> op_post(states[i], #[trigger] ops[i], states[i + 1], results[i])
}

/// After an operation a store holds what the operation makes of what it
/// held.
proof fn lemma_op_effect(before: KvStore, op: Record, after: KvStore, r: Result<(), KvsError>)
    requires
        op_post(before, op, after, r),
    ensures
        after@ == effect(before@, op),
{
    reveal(op_post);
}

/// After any operations a store holds what the operations make, one after
/// the other, of what it held.
pub proof fn law_trace_runs(
    states: Seq<KvStore>,
    ops: Seq<Record>,
    results: Seq<Result<(), KvsError>>,
)
    requires
        is_trace(states, ops, results),
    ensures
        states.last()@ == run(states[0]@, ops),
    decreases ops.len(),
{
    if ops.len() > 0 {
        let n = ops.len() as int;
        assert(is_trace(states.drop_last(), ops.drop_last(), results.drop_last())) by {
            assert forall|i: int| 0 <= i < n - 1 implies op_post(
                states.drop_last()[i],
                #[trigger] ops.drop_last()[i],
                states.drop_last()[i + 1],
                results.drop_last()[i],
            ) by {
                assert(op_post(states[i], ops[i], states[i + 1], results[i]));
            }
        }
        law_trace_runs(states.drop_last(), ops.drop_last(), results.drop_last());
        assert(states.drop_last().last() == states[n - 1]);
        assert(op_post(states[n - 1], ops[n - 1], states[n], results[n - 1]));
        lemma_op_effect(states[n - 1], ops[n - 1], states[n], results[n - 1]);
    }
}

/// After any sequence of `set` and `remove`, `get` answers the value of the
/// last `set` of the key, unless a `remove` of the key came after it; for a
/// key that the sequence did not touch, it answers what the store held.
pub proof fn law_get_answers_last_write(
    states: Seq<KvStore>,
    ops: Seq<Record>,
    results: Seq<Result<(), KvsError>>,
    key: Seq<char>,
    after: KvStore,
    get_result: Result<Option<String>, KvsError>,
)
    requires
        is_trace(states, ops, results),
        KvStore::get_post(states.last(), key, after, get_result),
    ensures
        answer(get_result) == Some(
            match last_write(ops, key) {
                Some(Record::Put { value, .. }) => Some(value),
                Some(Record::Remove { .. }) => None,
                None => lookup(states[0]@, key),
            },
        ),
{
    law_trace_runs(states, ops, results);
    law_last_write_wins(states[0]@, ops, key);
}

/// A `get` that follows a `set` of the same key answers the value that was
/// set.
pub proof fn law_get_after_set(
    s0: KvStore,
    s1: KvStore,
    s2: KvStore,
    key: Seq<char>,
    value: Seq<char>,
    set_result: Result<(), KvsError>,
    get_result: Result<Option<String>, KvsError>,
)
    requires
        KvStore::set_post(s0, key, value, s1, set_result),
        KvStore::get_post(s1, key, s2, get_result),
        set_result is Ok,
    ensures
        answer(get_result) == Some(Some(value)),
        s2@ == s0@.insert(key, value),
{
}

/// A `remove` that follows a `remove` of the same key fails, because the
/// key is not found, and leaves the store as it was. This is stated of the
/// keys whose `Remove` can be written.
pub proof fn law_second_remove_fails(
    s0: KvStore,
    s1: KvStore,
    s2: KvStore,
    key: Seq<char>,
    first: Result<(), KvsError>,
    second: Result<(), KvsError>,
)
    requires
        round_trips(Record::Remove { key }),
        KvStore::remove_post(s0, key, s1, first),
        KvStore::remove_post(s1, key, s2, second),
    ensures
        second matches Err(e) && e is KeyNotFound,
        s2@ == s1@,
        s2.dir_view() == s1.dir_view(),
        !s2@.contains_key(key),
{
}

/// A store that is opened on the directory of another holds the same keys
/// with the same values, the same index and the same count of stale bytes.
/// To open it fails only where the other appends to the last generation
/// that there is.
pub proof fn law_reopen_keeps_contents(closed: KvStore, r: Result<KvStore, KvsError>)
    requires
        closed.wf(),
        KvStore::open_post(closed.dir_view(), r),
    ensures
        match r {
            Ok(reopened) => {
                &&& reopened@ == closed@
                &&& reopened.index_view() == closed.index_view()
                &&& reopened.uncompacted_spec() == closed.uncompacted_spec()
                &&& reopened.current_gen_spec() == closed.current_gen_spec() + 1
            },
            Err(_) => closed.current_gen_spec() == u64::MAX,
        },
{
    closed.lemma_wf();
}

/// Whether `states` are the states that a store goes through as the
/// operations `ops` are done to it, where before any of them the store may
/// have been compacted: `compacted[i]` is the store as the operation `i`
/// finds it.
pub open spec fn is_compacting_trace(
    states: Seq<KvStore>,
    compacted: Seq<KvStore>,
    ops: Seq<Record>,
    results: Seq<Result<(), KvsError>>,
) -> bool {
    &&& states.len() == ops.len() + 1
    &&& compacted.len() == ops.len()
    &&& results.len() == ops.len()
    &&& forall|i: int|
        0 <= i < ops.len() ==> may_be_compacted(states[i], compacted[i]) && op_post(
            compacted[i],
            #[trigger] ops[i],
            states[i + 1],
            results[i],
        )
}

/// Whether `after` is the store `before` or what `compact` makes of it.
#[verifier::opaque]
pub open spec fn may_be_compacted(before: KvStore, after: KvStore) -> bool {
    after == before || exists|done: bool| KvStore::compact_post(before, after, done)
}

/// Two stores that hold the same keys and values take an operation alike.
proof fn lemma_same_contents_same_effect(
    a: KvStore,
    a_after: KvStore,
    a_result: Result<(), KvsError>,
    b: KvStore,
    b_after: KvStore,
    b_result: Result<(), KvsError>,
    op: Record,
)
    requires
        a@ == b@,
        op_post(a, op, a_after, a_result),
        op_post(b, op, b_after, b_result),
    ensures
        a_after@ == b_after@,
        a_result is Ok == b_result is Ok,
        a_result matches Err(e) ==> b_result matches Err(f) && (e is KeyNotFound
            == f is KeyNotFound),
{
    reveal(op_post);
    match op {
        Record::Put { key, value } => {
            law_compaction_keeps_set(a, a_after, a_result, b, b_after, b_result, key, value);
        },
        Record::Remove { key } => {
            law_compaction_keeps_remove(a, a_after, a_result, b, b_after, b_result, key);
        },
    }
}

/// A store that may have been compacted holds what it held.
proof fn lemma_compacted_or_not(before: KvStore, after: KvStore)
    requires
        may_be_compacted(before, after),
    ensures
        after@ == before@,
{
    reveal(may_be_compacted);
}

/// Compaction cannot be observed: a store that is compacted between its
/// operations, wherever, holds after each of them what a store holds that
/// is never compacted, and each operation succeeds in the one as in the
/// other.
#[verifier::rlimit(50)]
pub proof fn law_compaction_is_not_observed(
    plain: Seq<KvStore>,
    plain_results: Seq<Result<(), KvsError>>,
    states: Seq<KvStore>,
    compacted: Seq<KvStore>,
    results: Seq<Result<(), KvsError>>,
    ops: Seq<Record>,
    n: int,
)
    requires
        is_trace(plain, ops, plain_results),
        is_compacting_trace(states, compacted, ops, results),
        plain[0]@ == states[0]@,
        0 <= n <= ops.len(),
    ensures
        plain[n]@ == states[n]@,
        forall|i: int|
            0 <= i < n ==> (#[trigger] plain_results[i] is Ok) == (results[i] is Ok) && (
            plain_results[i] matches Err(e) ==> results[i] matches Err(f) && (e is KeyNotFound)
                == (f is KeyNotFound)),
    decreases n,
{
    if n > 0 {
        law_compaction_is_not_observed(
            plain,
            plain_results,
            states,
            compacted,
            results,
            ops,
            n - 1,
        );
        let i = n - 1;
        assert(op_post(plain[i], ops[i], plain[i + 1], plain_results[i]));
        assert(may_be_compacted(states[i], compacted[i]) && op_post(
            compacted[i],
            ops[i],
            states[i + 1],
            results[i],
        ));
        lemma_compacted_or_not(states[i], compacted[i]);
        lemma_same_contents_same_effect(
            plain[i],
            plain[i + 1],
            plain_results[i],
            compacted[i],
            states[i + 1],
            results[i],
            ops[i],
        );
    }
}

/// Compaction cannot be observed: two stores that hold the same keys and
/// values, as a store does before and after it is compacted, answer every
/// `get` alike.
pub proof fn law_compaction_keeps_answers(
    a: KvStore,
    a_after: KvStore,
    a_result: Result<Option<String>, KvsError>,
    b: KvStore,
    b_after: KvStore,
    b_result: Result<Option<String>, KvsError>,
    key: Seq<char>,
)
    requires
        a@ == b@,
        KvStore::get_post(a, key, a_after, a_result),
        KvStore::get_post(b, key, b_after, b_result),
    ensures
        answer(a_result) == answer(b_result),
        a_after@ == b_after@,
{
}

/// Compaction cannot be observed: two stores that hold the same keys and
/// values take every `set` alike.
pub proof fn law_compaction_keeps_set(
    a: KvStore,
    a_after: KvStore,
    a_result: Result<(), KvsError>,
    b: KvStore,
    b_after: KvStore,
    b_result: Result<(), KvsError>,
    key: Seq<char>,
    value: Seq<char>,
)
    requires
        a@ == b@,
        KvStore::set_post(a, key, value, a_after, a_result),
        KvStore::set_post(b, key, value, b_after, b_result),
    ensures
        a_result is Ok == b_result is Ok,
        a_after@ == b_after@,
{
}

/// Compaction cannot be observed: two stores that hold the same keys and
/// values take every `remove` alike.
pub proof fn law_compaction_keeps_remove(
    a: KvStore,
    a_after: KvStore,
    a_result: Result<(), KvsError>,
    b: KvStore,
    b_after: KvStore,
    b_result: Result<(), KvsError>,
    key: Seq<char>,
)
    requires
        a@ == b@,
        KvStore::remove_post(a, key, a_after, a_result),
        KvStore::remove_post(b, key, b_after, b_result),
    ensures
        a_result is Ok == b_result is Ok,
        a_result matches Err(e) ==> b_result matches Err(f) && (e is KeyNotFound
            == f is KeyNotFound),
        a_after@ == b_after@,
{
}

/// What a store answers does not depend on the reader that it is read
/// through: two readers, whatever they have open, are given the same answer.
pub proof fn law_readers_agree(
    store: KvStore,
    a: KvStoreReader,
    a_after: KvStoreReader,
    a_result: Result<Option<String>, KvsError>,
    b: KvStoreReader,
    b_after: KvStoreReader,
    b_result: Result<Option<String>, KvsError>,
    key: Seq<char>,
)
    requires
        store.read_post(a, key, a_after, a_result),
        store.read_post(b, key, b_after, b_result),
    ensures
        answer(a_result) == answer(b_result),
        answer(a_result) == Some(lookup(store@, key)),
{
}

/// A compacted store holds the keys and values that it held, and its safe
/// point has not gone down.
pub proof fn law_compaction_keeps_contents(before: KvStore, after: KvStore, done: bool)
    requires
        before.wf(),
        KvStore::compact_post(before, after, done),
    ensures
        after@ == before@,
        after.safe_point_spec() >= before.safe_point_spec(),
{
    before.lemma_wf();
}

/// After compaction the logs hold as many bytes as the live records take:
/// there is a listing of the live keys, each once, whose records add up to
/// the size of the directory.
pub proof fn law_compacted_size(before: Seq<(u64, Seq<u8>)>, after: Seq<(u64, Seq<u8>)>)
    requires
        compacted(before, after),
    ensures
        replay_dir(after).uncompacted == 0,
        exists|keys: Seq<Seq<char>>|
            is_listing(keys, replay_dir(after).index.dom()) && total_size(after)
                == #[trigger] live_size(keys, replay_dir(after).index),
{
    reveal_with_fuel(total_size, 3);
    assert(after.drop_last().last() == after[0]);
    assert(after.drop_last().drop_last().len() == 0);
    let keys = choose|keys: Seq<Seq<char>>|
        is_listing(keys, replay_dir(after).index.dom()) && crate::index::keys_ascend(keys)
            && after[0].1 == crate::writer::live_records(before, replay_dir(before).index, keys)
            && after[0].1.len() == #[trigger] live_size(keys, replay_dir(after).index);
    assert(total_size(after) == live_size(keys, replay_dir(after).index));
}

/// In every store each key of the index is bound to a `Put` of that key
/// in a log of the directory, of a generation that is not below the safe
/// point; the live keys are the keys of the index; and the generation that
/// the store appends to is the one of the last log, above all the others.
pub proof fn law_store_invariants(store: KvStore)
    requires
        store.wf(),
    ensures
        index_valid(store.dir_view(), store.index_view()),
        store@.dom() == store.index_view().dom(),
        forall|k: Seq<char>| #[trigger]
            store.index_view().contains_key(k) ==> has_gen(
                store.dir_view(),
                store.index_view()[k].gen,
            ) && store.index_view()[k].gen >= store.safe_point_spec(),
        has_gen(store.dir_view(), store.current_gen_spec()),
        forall|i: int|
            0 <= i < store.dir_view().len() - 1 ==> (#[trigger] store.dir_view()[i]).0
                < store.current_gen_spec(),
{
    store.lemma_wf();
    let d = store.dir_view();
    let index = store.index_view();
    lemma_replay_dir_valid(d);
    assert forall|k: Seq<char>| #[trigger] index.contains_key(k) implies has_gen(d, index[k].gen)
        && index[k].gen >= store.safe_point_spec() by {
        assert(entry_valid(d, k, index[k]));
        let i = gen_at(d, index[k].gen);
        assert(d[i].0 >= store.safe_point_spec());
    }
    lemma_gen_at(d, d.len() - 1);
    assert forall|i: int| 0 <= i < d.len() - 1 implies (#[trigger] d[i]).0
        < store.current_gen_spec() by {
        assert(d[i].0 < d[d.len() - 1].0);
    }
    assert(store@.dom() =~= index.dom());
}

/// The safe point never falls: not when a key is set, not when one is
/// removed, not when the store is compacted.
#[verifier::rlimit(50)]
pub proof fn law_safe_point_never_falls(
    before: KvStore,
    after: KvStore,
    key: Seq<char>,
    value: Seq<char>,
    r: Result<(), KvsError>,
    done: bool,
)
    requires
        before.wf(),
        KvStore::set_post(before, key, value, after, r) || KvStore::remove_post(
            before,
            key,
            after,
            r,
        ) || KvStore::compact_post(before, after, done),
    ensures
        after.safe_point_spec() >= before.safe_point_spec(),
{
    before.lemma_wf();
    let d = before.dir_view();
    assert(d[d.len() - 1].0 >= before.safe_point_spec());
}

/// In a store whose logs hold records only, every byte of the logs belongs
/// to a live record or to a stale one: there is a listing of the live keys,
/// each once, whose records, with the stale bytes, add up to the size of
/// the directory. The store keeps the count of the stale bytes, as far as
/// 64 bits hold it.
pub proof fn law_bytes_are_live_or_stale(store: KvStore)
    requires
        store.wf(),
        all_clean(store.dir_view()),
    ensures
        store.uncompacted_spec() == kept(replay_dir(store.dir_view()).uncompacted),
        exists|keys: Seq<Seq<char>>|
            is_listing(keys, store.index_view().dom()) && total_size(store.dir_view())
                == #[trigger] live_size(keys, store.index_view()) + replay_dir(
                store.dir_view(),
            ).uncompacted,
{
    store.lemma_wf();
    let keys = lemma_replay_dir_accounts(store.dir_view());
    assert(total_size(store.dir_view()) == live_size(keys, store.index_view()) + replay_dir(
        store.dir_view(),
    ).uncompacted);
}

/// A directory whose logs hold records only is such a directory after a
/// record is written to it.
#[verifier::rlimit(50)]
proof fn lemma_written_keeps_clean(d: Seq<(u64, Seq<u8>)>, r: Record, e: Seq<(u64, Seq<u8>)>)
    requires
        d.len() > 0,
        all_clean(d),
        round_trips(r),
        written(d, r, e),
    ensures
        all_clean(e),
{
    let rec = encode_record(r)->0;
    let mid = appended(d, rec);
    assert(clean_from(d[d.len() - 1].1, 0));
    lemma_replay_log_append(d.last().1, rec, r, d.last().0, 0, empty_state());
    assert forall|i: int| 0 <= i < mid.len() implies clean_from((#[trigger] mid[i]).1, 0) by {
        if i < mid.len() - 1 {
            assert(mid[i] == d[i]);
        }
    }
    if compaction_due(mid) {
        assert forall|i: int| 0 <= i < e.len() implies clean_from((#[trigger] e[i]).1, 0) by {
            if i == 1 {
                assert(e[1].1 =~= Seq::<u8>::empty());
            }
        }
    }
}

/// The logs of a new store hold records only.
pub proof fn law_new_store_is_clean()
    ensures
        all_clean(seq![(1u64, Seq::<u8>::empty())]),
{
}

/// If the logs of a store hold records only, they do so after a key is
/// set.
pub proof fn law_set_keeps_logs_clean(
    before: KvStore,
    after: KvStore,
    key: Seq<char>,
    value: Seq<char>,
    r: Result<(), KvsError>,
)
    requires
        before.wf(),
        all_clean(before.dir_view()),
        KvStore::set_post(before, key, value, after, r),
    ensures
        all_clean(after.dir_view()),
{
    before.lemma_wf();
    if r is Ok {
        lemma_written_keeps_clean(
            before.dir_view(),
            Record::Put { key, value },
            after.dir_view(),
        );
    }
}

/// If the logs of a store hold records only, they do so after a key is
/// removed.
pub proof fn law_remove_keeps_logs_clean(
    before: KvStore,
    after: KvStore,
    key: Seq<char>,
    r: Result<(), KvsError>,
)
    requires
        before.wf(),
        all_clean(before.dir_view()),
        KvStore::remove_post(before, key, after, r),
    ensures
        all_clean(after.dir_view()),
{
    before.lemma_wf();
    if r is Ok {
        lemma_written_keeps_clean(before.dir_view(), Record::Remove { key }, after.dir_view());
    }
}

/// The logs of a compacted store hold records only.
pub proof fn law_compacted_logs_are_clean(before: KvStore, after: KvStore)
    requires
        before.wf(),
        KvStore::compact_post(before, after, true),
    ensures
        all_clean(after.dir_view()),
{
    let e = after.dir_view();
    assert forall|i: int| 0 <= i < e.len() implies clean_from((#[trigger] e[i]).1, 0) by {
        if i == 1 {
            assert(e[1].1 =~= Seq::<u8>::empty());
        }
    }
}

/// The digits of a number are digits, and they spell the number.
pub proof fn lemma_decimal_spells(n: nat)
    ensures
        decimal(n).len() > 0,
        all_digits(decimal(n)),
        decimal_value(decimal(n)) == n,
    decreases n,
{
    if n < 10 {
        assert(decimal(n).drop_last() =~= Seq::<char>::empty());
        assert(decimal_value(decimal(n).drop_last()) == 0);
    } else {
        lemma_decimal_spells(n / 10);
        assert(decimal(n).drop_last() =~= decimal(n / 10));
    }
}

/// The name of a log tells the generation of the log.
pub proof fn law_log_name_tells_gen(gen: u64)
    ensures
        name_gen(decimal(gen as nat) + log_suffix()) == Some(gen),
{
    lemma_decimal_spells(gen as nat);
    let name = decimal(gen as nat) + log_suffix();
    let n = name.len() - 4;
    assert(name.take(n) =~= decimal(gen as nat));
    assert(name.skip(n) =~= log_suffix());
}

} // verus!
