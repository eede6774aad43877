//! What a data directory says: the index and the count of stale bytes that
//! reading its logs from the first record to the last gives.

use crate::codec::{decode_record, lemma_decode_bounds, lemma_decode_prefix, Record};
use crate::frame::same_prefix;
use crate::dir::{appended, ascending, data_of, gen_at, has_gen, lemma_gen_at, sizes_fit};
use crate::index::CommandPos;
use vstd::prelude::*;

verus! {

/// An index together with the number of bytes that stale records take.
pub struct IndexState {
    pub index: Map<Seq<char>, CommandPos>,
    pub uncompacted: nat,
}

/// A count as a store keeps it, in 64 bits: a count that does not fit is
/// kept as the largest that does.
pub open spec fn kept(n: nat) -> u64 {
    if n > u64::MAX {
        u64::MAX
    } else {
        n as u64
    }
}

/// The state before any record is read.
pub open spec fn empty_state() -> IndexState {
    IndexState { index: Map::empty(), uncompacted: 0 }
}

/// The count of stale bytes once the record of `key`, if the index holds
/// one, has gone stale.
pub open spec fn charge(st: IndexState, key: Seq<char>) -> nat {
    if st.index.contains_key(key) {
        st.uncompacted + st.index[key].len as nat
    } else {
        st.uncompacted
    }
}

/// The state after the record `r`, which lies at `at`, is read. A `Put`
/// binds its key to `at` and makes the key's earlier record stale. A `Remove`
/// unbinds its key; the key's earlier record and the `Remove` itself are
/// stale.
pub open spec fn apply_record(st: IndexState, r: Record, at: CommandPos) -> IndexState {
    match r {
        Record::Put { key, .. } => IndexState {
            index: st.index.insert(key, at),
            uncompacted: charge(st, key),
        },
        Record::Remove { key } => IndexState {
            index: st.index.remove(key),
            uncompacted: charge(st, key) + at.len as nat,
        },
    }
}

/// The state after the records of the log `data` of generation `gen` are
/// read from `pos` on, one after the other, up to the end of the log or to
/// the first bytes that are no record.
pub open spec fn replay_log(data: Seq<u8>, gen: u64, pos: int, st: IndexState) -> IndexState
    decreases data.len() - pos,
{
    if 0 <= pos < data.len() {
        match decode_record(data.subrange(pos, data.len() as int)) {
            Some((r, n)) => if 0 < n <= data.len() - pos {
                replay_log(
                    data,
                    gen,
                    pos + n,
                    apply_record(st, r, CommandPos { gen, pos: pos as u64, len: n as u64 }),
                )
            } else {
                st
            },
            None => st,
        }
    } else {
        st
    }
}

/// Whether the log holds records from `pos` up to its end, with nothing
/// that is no record.
pub open spec fn clean_from(data: Seq<u8>, pos: int) -> bool
    decreases data.len() - pos,
{
    if 0 <= pos < data.len() {
        match decode_record(data.subrange(pos, data.len() as int)) {
            Some((r, n)) => 0 < n <= data.len() - pos && clean_from(data, pos + n),
            None => false,
        }
    } else {
        pos == data.len()
    }
}

/// The state after all the logs of the directory are read, in the order of
/// their generations. The stale bytes are counted log by log.
pub open spec fn replay_dir(d: Seq<(u64, Seq<u8>)>) -> IndexState
    decreases d.len(),
{
    if d.len() == 0 {
        empty_state()
    } else {
        let before = replay_dir(d.drop_last());
        let after = replay_log(
            d.last().1,
            d.last().0,
            0,
            IndexState { index: before.index, uncompacted: 0 },
        );
        IndexState {
            index: after.index,
            uncompacted: before.uncompacted + after.uncompacted,
        }
    }
}

/// The record that lies at `at`, if the directory holds one exactly there.
pub open spec fn record_at(d: Seq<(u64, Seq<u8>)>, at: CommandPos) -> Option<Record> {
    if has_gen(d, at.gen) && at.pos + at.len <= data_of(d, at.gen).len() {
        match decode_record(data_of(d, at.gen).subrange(at.pos as int, at.pos + at.len)) {
            Some((r, n)) => if n == at.len {
                Some(r)
            } else {
                None
            },
            None => None,
        }
    } else {
        None
    }
}

/// Whether a `Put` of `key` lies at `at`.
pub open spec fn entry_valid(d: Seq<(u64, Seq<u8>)>, key: Seq<char>, at: CommandPos) -> bool {
    record_at(d, at) matches Some(Record::Put { key: k, .. }) && k == key
}

/// The value of the `Put` that lies at `at`.
pub open spec fn value_at(d: Seq<(u64, Seq<u8>)>, at: CommandPos) -> Seq<char> {
    match record_at(d, at) {
        Some(Record::Put { value, .. }) => value,
        _ => Seq::empty(),
    }
}

/// Whether every key of the index is bound to a `Put` of that key.
pub open spec fn index_valid(d: Seq<(u64, Seq<u8>)>, index: Map<Seq<char>, CommandPos>) -> bool {
    forall|k: Seq<char>| index.contains_key(k) ==> entry_valid(d, k, #[trigger] index[k])
}

/// The live keys with their values: what the index and the logs say
/// together.
pub open spec fn contents(d: Seq<(u64, Seq<u8>)>, index: Map<Seq<char>, CommandPos>) -> Map<
    Seq<char>,
    Seq<char>,
> {
    Map::new(|k: Seq<char>| index.contains_key(k), |k: Seq<char>| value_at(d, index[k]))
}

/// The live keys with their values that a directory says.
pub open spec fn dir_contents(d: Seq<(u64, Seq<u8>)>) -> Map<Seq<char>, Seq<char>> {
    contents(d, replay_dir(d).index)
}

/// What a directory says after one more record is written at the end of a
/// log that holds records only: what it said before, with that record read
/// last.
pub proof fn lemma_replay_log_append(
    data: Seq<u8>,
    rec: Seq<u8>,
    r: Record,
    gen: u64,
    pos: int,
    st: IndexState,
)
    requires
        0 <= pos <= data.len(),
        clean_from(data, pos),
        decode_record(rec) == Some((r, rec.len() as int)),
    ensures
        replay_log(data + rec, gen, pos, st) == apply_record(
            replay_log(data, gen, pos, st),
            r,
            CommandPos { gen, pos: data.len() as u64, len: rec.len() as u64 },
        ),
        clean_from(data + rec, pos),
    decreases data.len() - pos,
{
    let all = data + rec;
    lemma_decode_bounds(rec);
    if pos == data.len() {
        assert(all.subrange(pos, all.len() as int) =~= rec);
        let st1 = apply_record(
            st,
            r,
            CommandPos { gen, pos: data.len() as u64, len: rec.len() as u64 },
        );
        assert(replay_log(all, gen, pos + rec.len(), st1) == st1);
        assert(clean_from(all, pos + rec.len()));
    } else {
        let s = data.subrange(pos, data.len() as int);
        let t = all.subrange(pos, all.len() as int);
        let (r0, n0) = decode_record(s)->0;
        assert(same_prefix(s, t, n0));
        lemma_decode_prefix(s, t);
        let st0 = apply_record(st, r0, CommandPos { gen, pos: pos as u64, len: n0 as u64 });
        lemma_replay_log_append(data, rec, r, gen, pos + n0, st0);
    }
}

/// A directory with one more log, or with more bytes at the end of a log,
/// still holds the records that it held, where it held them.
pub open spec fn extends(d: Seq<(u64, Seq<u8>)>, e: Seq<(u64, Seq<u8>)>) -> bool {
    forall|i: int|
        0 <= i < d.len() ==> exists|j: int|
            0 <= j < e.len() && (#[trigger] e[j]).0 == (#[trigger] d[i]).0 && d[i].1.len()
                <= e[j].1.len() && e[j].1.subrange(0, d[i].1.len() as int) == d[i].1
}

pub proof fn lemma_record_at_extends(
    d: Seq<(u64, Seq<u8>)>,
    e: Seq<(u64, Seq<u8>)>,
    at: CommandPos,
)
    requires
        ascending(d),
        ascending(e),
        extends(d, e),
        record_at(d, at) is Some,
    ensures
        record_at(e, at) == record_at(d, at),
{
    let i = gen_at(d, at.gen);
    let j = choose|j: int|
        0 <= j < e.len() && (#[trigger] e[j]).0 == d[i].0 && d[i].1.len() <= e[j].1.len()
            && e[j].1.subrange(0, d[i].1.len() as int) == d[i].1;
    lemma_gen_at(e, j);
    let old_data = d[i].1;
    let new_data = e[j].1;
    assert(forall|k: int|
        0 <= k < old_data.len() ==> old_data[k] == new_data.subrange(0, old_data.len() as int)[k]);
    assert(new_data.subrange(at.pos as int, at.pos + at.len) =~= old_data.subrange(
        at.pos as int,
        at.pos + at.len,
    ));
}

pub proof fn lemma_index_valid_extends(
    d: Seq<(u64, Seq<u8>)>,
    e: Seq<(u64, Seq<u8>)>,
    index: Map<Seq<char>, CommandPos>,
)
    requires
        ascending(d),
        ascending(e),
        extends(d, e),
        index_valid(d, index),
    ensures
        index_valid(e, index),
        contents(e, index) == contents(d, index),
{
    assert forall|k: Seq<char>| index.contains_key(k) implies entry_valid(
        e,
        k,
        #[trigger] index[k],
    ) && value_at(e, index[k]) == value_at(d, index[k]) by {
        assert(entry_valid(d, k, index[k]));
        lemma_record_at_extends(d, e, index[k]);
    }
    assert(contents(e, index) =~= contents(d, index));
}

/// Reading one log leaves every key of the index bound to a `Put` of that
/// key.
pub proof fn lemma_replay_log_valid(d: Seq<(u64, Seq<u8>)>, i: int, pos: int, st: IndexState)
    requires
        ascending(d),
        sizes_fit(d),
        0 <= i < d.len(),
        0 <= pos <= d[i].1.len(),
        index_valid(d, st.index),
    ensures
        index_valid(d, replay_log(d[i].1, d[i].0, pos, st).index),
    decreases d[i].1.len() - pos,
{
    let data = d[i].1;
    let gen = d[i].0;
    if pos < data.len() {
        let s = data.subrange(pos, data.len() as int);
        match decode_record(s) {
            Some((r, n)) => {
                lemma_decode_bounds(s);
                let at = CommandPos { gen, pos: pos as u64, len: n as u64 };
                let st1 = apply_record(st, r, at);
                lemma_gen_at(d, i);
                let t = data.subrange(pos, pos + n);
                assert(same_prefix(s, t, n));
                lemma_decode_prefix(s, t);
                assert(record_at(d, at) == Some(r));
                assert forall|k: Seq<char>| st1.index.contains_key(k) implies entry_valid(
                    d,
                    k,
                    #[trigger] st1.index[k],
                ) by {
                    if k != r.key() {
                        assert(st.index.contains_key(k));
                        assert(entry_valid(d, k, st.index[k]));
                    }
                }
                lemma_replay_log_valid(d, i, pos + n, st1);
            },
            None => {},
        }
    }
}

/// A directory whose logs ascend binds every key of its index to a `Put` of
/// that key.
pub proof fn lemma_replay_dir_valid(d: Seq<(u64, Seq<u8>)>)
    requires
        ascending(d),
        sizes_fit(d),
    ensures
        index_valid(d, replay_dir(d).index),
    decreases d.len(),
{
    if d.len() > 0 {
        let before = d.drop_last();
        lemma_replay_dir_valid(before);
        assert(extends(before, d)) by {
            assert forall|i: int| 0 <= i < before.len() implies exists|j: int|
                0 <= j < d.len() && (#[trigger] d[j]).0 == (#[trigger] before[i]).0
                    && before[i].1.len() <= d[j].1.len() && d[j].1.subrange(
                    0,
                    before[i].1.len() as int,
                ) == before[i].1 by {
                assert(d[i].1.subrange(0, before[i].1.len() as int) =~= before[i].1);
            }
        }
        lemma_index_valid_extends(before, d, replay_dir(before).index);
        lemma_replay_log_valid(
            d,
            d.len() - 1,
            0,
            IndexState { index: replay_dir(before).index, uncompacted: 0 },
        );
    }
}

/// The live keys and values after the record `r` is read last.
pub open spec fn apply_to_contents(m: Map<Seq<char>, Seq<char>>, r: Record) -> Map<
    Seq<char>,
    Seq<char>,
> {
    match r {
        Record::Put { key, value } => m.insert(key, value),
        Record::Remove { key } => m.remove(key),
    }
}

/// Writing a record at the end of the last log, where that log holds records
/// only, changes what the directory says as reading that record last does.
#[verifier::rlimit(50)]
pub proof fn lemma_dir_append(d: Seq<(u64, Seq<u8>)>, rec: Seq<u8>, r: Record)
    requires
        ascending(d),
        d.len() > 0,
        clean_from(d.last().1, 0),
        decode_record(rec) == Some((r, rec.len() as int)),
        sizes_fit(appended(d, rec)),
    ensures
        ascending(appended(d, rec)),
        clean_from(appended(d, rec).last().1, 0),
        replay_dir(appended(d, rec)) == apply_record(
            replay_dir(d),
            r,
            CommandPos { gen: d.last().0, pos: d.last().1.len() as u64, len: rec.len() as u64 },
        ),
        dir_contents(appended(d, rec)) == apply_to_contents(dir_contents(d), r),
{
    let e = appended(d, rec);
    let gen = d.last().0;
    let at = CommandPos { gen, pos: d.last().1.len() as u64, len: rec.len() as u64 };
    assert(e.drop_last() =~= d.drop_last());
    let before = replay_dir(d.drop_last());
    let st = IndexState { index: before.index, uncompacted: 0 };
    let after = replay_log(d.last().1, gen, 0, st);
    assert(replay_dir(e) == apply_record(replay_dir(d), r, at)) by {
        lemma_replay_log_append(d.last().1, rec, r, gen, 0, st);
        let grown = replay_log(e.last().1, gen, 0, st);
        assert(grown == apply_record(after, r, at));
        let said = replay_dir(d);
        assert(said.index == after.index);
        assert(said.uncompacted == before.uncompacted + after.uncompacted);
        let next = apply_record(said, r, at);
        assert(next.index =~= grown.index);
        assert(next.uncompacted == before.uncompacted + grown.uncompacted);
        assert(replay_dir(e).index == grown.index);
        assert(replay_dir(e).uncompacted == before.uncompacted + grown.uncompacted);
    }
    assert(clean_from(e.last().1, 0)) by {
        lemma_replay_log_append(d.last().1, rec, r, gen, 0, st);
    }
    assert(ascending(e));
    assert(dir_contents(e) == apply_to_contents(dir_contents(d), r)) by {
        assert(sizes_fit(d)) by {
            assert forall|i: int| 0 <= i < d.len() implies (#[trigger] d[i]).1.len()
                <= u64::MAX by {
                assert(e[i].1.len() <= u64::MAX);
            }
        }
        lemma_replay_dir_valid(d);
        assert(extends(d, e)) by {
            assert forall|i: int| 0 <= i < d.len() implies exists|j: int|
                0 <= j < e.len() && (#[trigger] e[j]).0 == (#[trigger] d[i]).0 && d[i].1.len()
                    <= e[j].1.len() && e[j].1.subrange(0, d[i].1.len() as int) == d[i].1 by {
                assert(e[i].1.subrange(0, d[i].1.len() as int) =~= d[i].1);
            }
        }
        let index = replay_dir(d).index;
        lemma_index_valid_extends(d, e, index);
        lemma_gen_at(e, e.len() - 1);
        assert(e.last().1.subrange(at.pos as int, at.pos + at.len) =~= rec);
        assert(record_at(e, at) == Some(r));
        assert(replay_dir(e).index == apply_record(replay_dir(d), r, at).index);
        assert(dir_contents(e) =~= apply_to_contents(dir_contents(d), r));
    }
}

/// A new, empty log behind the others changes nothing in what the
/// directory says.
pub proof fn lemma_dir_push_empty(d: Seq<(u64, Seq<u8>)>, gen: u64)
    requires
        ascending(d),
        sizes_fit(d),
        forall|i: int| 0 <= i < d.len() ==> (#[trigger] d[i]).0 < gen,
    ensures
        ascending(d.push((gen, Seq::empty()))),
        sizes_fit(d.push((gen, Seq::empty()))),
        replay_dir(d.push((gen, Seq::empty()))) == replay_dir(d),
        dir_contents(d.push((gen, Seq::empty()))) == dir_contents(d),
{
    let e = d.push((gen, Seq::<u8>::empty()));
    assert(e.drop_last() =~= d);
    lemma_replay_dir_valid(d);
    assert(extends(d, e)) by {
        assert forall|i: int| 0 <= i < d.len() implies exists|j: int|
            0 <= j < e.len() && (#[trigger] e[j]).0 == (#[trigger] d[i]).0 && d[i].1.len()
                <= e[j].1.len() && e[j].1.subrange(0, d[i].1.len() as int) == d[i].1 by {
            assert(e[i].1.subrange(0, d[i].1.len() as int) =~= d[i].1);
        }
    }
    lemma_index_valid_extends(d, e, replay_dir(d).index);
}

} // verus!
