//! Where the bytes of a directory go: every byte of a log that holds
//! records only belongs to a live record or to a stale one.

use crate::codec::{decode_record, lemma_decode_bounds, Record};
use crate::dir::total_size;
use crate::index::{is_listing, CommandPos};
use crate::replay::{apply_record, clean_from, replay_dir, replay_log, IndexState};
use crate::writer::{lemma_live_size_same, live_size};
use vstd::prelude::*;

verus! {

/// Whether every log of the directory holds records only.
pub open spec fn all_clean(d: Seq<(u64, Seq<u8>)>) -> bool {
    forall|i: int| 0 <= i < d.len() ==> clean_from((#[trigger] d[i]).1, 0)
}

/// The records of the keys of a listing take what the record of one key
/// takes and what the records of the others take.
pub proof fn lemma_live_size_split(
    keys: Seq<Seq<char>>,
    index: Map<Seq<char>, CommandPos>,
    i: int,
)
    requires
        0 <= i < keys.len(),
    ensures
        live_size(keys, index) == live_size(keys.remove(i), index) + index[keys[i]].len,
    decreases keys.len(),
{
    if i == keys.len() - 1 {
        assert(keys.remove(i) =~= keys.drop_last());
    } else {
        lemma_live_size_split(keys.drop_last(), index, i);
        assert(keys.remove(i).drop_last() =~= keys.drop_last().remove(i));
        assert(keys.remove(i).last() == keys.last());
    }
}

/// Reading one record keeps the account: the live records and the stale
/// bytes take what they took and, besides, the bytes of the record read.
proof fn lemma_apply_record_accounts(
    st: IndexState,
    r: Record,
    at: CommandPos,
    keys: Seq<Seq<char>>,
) -> (out: Seq<Seq<char>>)
    requires
        is_listing(keys, st.index.dom()),
    ensures
        is_listing(out, apply_record(st, r, at).index.dom()),
        live_size(out, apply_record(st, r, at).index) + apply_record(st, r, at).uncompacted
            == live_size(keys, st.index) + st.uncompacted + at.len,
{
    let k = r.key();
    let next = apply_record(st, r, at);
    if st.index.contains_key(k) {
        let i = choose|i: int| 0 <= i < keys.len() && #[trigger] keys[i] == k;
        let rest = keys.remove(i);
        assert forall|j: int| 0 <= j < rest.len() implies #[trigger] rest[j] != k by {
            if j < i {
                assert(rest[j] == keys[j]);
            } else {
                assert(rest[j] == keys[j + 1]);
            }
        }
        lemma_live_size_split(keys, st.index, i);
        lemma_live_size_same(rest, next.index, st.index);
        match r {
            Record::Put { .. } => {
                lemma_live_size_split(keys, next.index, i);
                assert(next.index.dom() =~= st.index.dom());
                keys
            },
            Record::Remove { .. } => {
                assert forall|key: Seq<char>| next.index.dom().contains(key) implies exists|j: int|
                    0 <= j < rest.len() && #[trigger] rest[j] == key by {
                    let j = choose|j: int| 0 <= j < keys.len() && #[trigger] keys[j] == key;
                    if j < i {
                        assert(rest[j] == key);
                    } else {
                        assert(rest[j - 1] == key);
                    }
                }
                assert forall|j: int| 0 <= j < rest.len() implies next.index.dom().contains(
                    #[trigger] rest[j],
                ) by {
                    if j < i {
                        assert(rest[j] == keys[j]);
                    } else {
                        assert(rest[j] == keys[j + 1]);
                    }
                }
                assert forall|a: int, b: int| 0 <= a < b < rest.len() implies #[trigger] rest[a]
                    != #[trigger] rest[b] by {
                    let oa = if a < i { a } else { a + 1 };
                    let ob = if b < i { b } else { b + 1 };
                    assert(keys[oa] != keys[ob]);
                }
                rest
            },
        }
    } else {
        assert forall|j: int| 0 <= j < keys.len() implies #[trigger] keys[j] != k by {
            assert(st.index.dom().contains(keys[j]));
        }
        lemma_live_size_same(keys, next.index, st.index);
        match r {
            Record::Put { .. } => {
                let more = keys.push(k);
                assert(more.drop_last() =~= keys);
                assert forall|key: Seq<char>| next.index.dom().contains(key) implies exists|j: int|
                    0 <= j < more.len() && #[trigger] more[j] == key by {
                    if key == k {
                        assert(more[keys.len() as int] == key);
                    } else {
                        let j = choose|j: int| 0 <= j < keys.len() && #[trigger] keys[j] == key;
                        assert(more[j] == key);
                    }
                }
                assert forall|a: int, b: int| 0 <= a < b < more.len() implies #[trigger] more[a]
                    != #[trigger] more[b] by {
                    if b < keys.len() {
                        assert(keys[a] != keys[b]);
                    } else {
                        assert(keys[a] != k);
                    }
                }
                more
            },
            Record::Remove { .. } => {
                assert(next.index.dom() =~= st.index.dom());
                keys
            },
        }
    }
}

/// Reading a log that holds records only keeps the account: the live
/// records and the stale bytes take what they took and, besides, the bytes
/// of the log.
proof fn lemma_replay_log_accounts(
    data: Seq<u8>,
    gen: u64,
    pos: int,
    st: IndexState,
    keys: Seq<Seq<char>>,
) -> (out: Seq<Seq<char>>)
    requires
        0 <= pos <= data.len() <= u64::MAX,
        clean_from(data, pos),
        is_listing(keys, st.index.dom()),
    ensures
        is_listing(out, replay_log(data, gen, pos, st).index.dom()),
        live_size(out, replay_log(data, gen, pos, st).index) + replay_log(
            data,
            gen,
            pos,
            st,
        ).uncompacted == live_size(keys, st.index) + st.uncompacted + (data.len() - pos),
    decreases data.len() - pos,
{
    if pos < data.len() {
        let (r, n) = decode_record(data.subrange(pos, data.len() as int))->0;
        let at = CommandPos { gen, pos: pos as u64, len: n as u64 };
        let next = lemma_apply_record_accounts(st, r, at, keys);
        lemma_replay_log_accounts(data, gen, pos + n, apply_record(st, r, at), next)
    } else {
        keys
    }
}

/// In a directory whose logs hold records only, the records that the keys
/// of the index are bound to and the stale bytes take all the bytes of the
/// logs: there is a listing of the keys, each once, whose records, with the
/// stale bytes, add up to the size of the directory.
pub proof fn lemma_replay_dir_accounts(d: Seq<(u64, Seq<u8>)>) -> (keys: Seq<Seq<char>>)
    requires
        all_clean(d),
        forall|i: int| 0 <= i < d.len() ==> (#[trigger] d[i]).1.len() <= u64::MAX,
    ensures
        is_listing(keys, replay_dir(d).index.dom()),
        live_size(keys, replay_dir(d).index) + replay_dir(d).uncompacted == total_size(d),
    decreases d.len(),
{
    if d.len() == 0 {
        Seq::empty()
    } else {
        let rest = d.drop_last();
        assert forall|i: int| 0 <= i < rest.len() implies clean_from((#[trigger] rest[i]).1, 0)
            && rest[i].1.len() <= u64::MAX by {
            assert(rest[i] == d[i]);
        }
        let before = lemma_replay_dir_accounts(rest);
        let st = IndexState { index: replay_dir(rest).index, uncompacted: 0 };
        assert(d.last() == d[d.len() - 1]);
        lemma_replay_log_accounts(d.last().1, d.last().0, 0, st, before)
    }
}

} // verus!
