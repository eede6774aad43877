//! The writer of a store: how a record is appended, how the index follows,
//! and how compaction rewrites the live records into a fresh generation.

use crate::bufio::{new_log_file, BufWriterWithPos};
use crate::codec::{decode_record, encode, encode_record, round_trips, Command, Record};
use crate::dir::{appended, ascending, data_of, gen_at, lemma_gen_at, sizes_fit, LogDir};
use crate::error::KvsError;
use crate::index::{is_listing, key_views, keys_ascend, CommandPos, Index};
use crate::reader::KvStoreReader;
use crate::replay::{
    apply_to_contents, clean_from, dir_contents, empty_state, entry_valid, index_valid,
    kept, lemma_dir_append, lemma_replay_dir_valid, lemma_replay_log_append, record_at,
    replay_dir,
    replay_log, value_at, IndexState,
};
use vstd::prelude::*;
use vstd::slice::slice_to_vec;

verus! {

/// The number of stale bytes above which the writer compacts.
pub const COMPACTION_THRESHOLD: u64 = 1024 * 1024;

/// Whether the directory `d`, the index, the writer's generation, the count
/// of stale bytes and the safe point belong together: the last log is the
/// writer's and holds records only, the index and the count are what the
/// directory says, and no log is of a generation below the safe point.
pub open spec fn consistent(
    d: Seq<(u64, Seq<u8>)>,
    index: Map<Seq<char>, CommandPos>,
    current_gen: u64,
    uncompacted: u64,
    safe_point: u64,
) -> bool {
    &&& ascending(d)
    &&& d.len() > 0
    &&& d.last().0 == current_gen
    &&& clean_from(d.last().1, 0)
    &&& replay_dir(d).index == index
    &&& kept(replay_dir(d).uncompacted) == uncompacted
    &&& forall|i: int| 0 <= i < d.len() ==> (#[trigger] d[i]).0 >= safe_point
}

/// The number of bytes of the records that the keys of `keys` are bound to.
pub open spec fn live_size(keys: Seq<Seq<char>>, index: Map<Seq<char>, CommandPos>) -> nat
    decreases keys.len(),
{
    if keys.len() == 0 {
        0
    } else {
        live_size(keys.drop_last(), index) + index[keys.last()].len as nat
    }
}

/// The bytes of the record that lies at `at`.
pub open spec fn bytes_at(d: Seq<(u64, Seq<u8>)>, at: CommandPos) -> Seq<u8> {
    data_of(d, at.gen).subrange(at.pos as int, at.pos + at.len)
}

/// The records that the keys of `keys` are bound to, one after the other.
pub open spec fn live_records(
    d: Seq<(u64, Seq<u8>)>,
    index: Map<Seq<char>, CommandPos>,
    keys: Seq<Seq<char>>,
) -> Seq<u8>
    decreases keys.len(),
{
    if keys.len() == 0 {
        Seq::empty()
    } else {
        live_records(d, index, keys.drop_last()) + bytes_at(d, index[keys.last()])
    }
}

/// Whether `after` is what compaction makes of `before`: one log, of the
/// generation after the writer's, that holds the live records and nothing
/// else, in the order of their keys, and an empty log of the generation
/// after that for the writer. The live keys and their values are the same,
/// and no byte is stale.
pub open spec fn compacted(before: Seq<(u64, Seq<u8>)>, after: Seq<(u64, Seq<u8>)>) -> bool {
    &&& before.len() > 0
    &&& before.last().0 <= u64::MAX - 2
    &&& after.len() == 2
    &&& after[0].0 == before.last().0 + 1
    &&& after[1] == (((before.last().0 + 2) as u64, Seq::<u8>::empty()))
    &&& clean_from(after[0].1, 0)
    &&& replay_dir(after).uncompacted == 0
    &&& replay_dir(after).index.dom() == replay_dir(before).index.dom()
    &&& dir_contents(after) == dir_contents(before)
    &&& exists|keys: Seq<Seq<char>>|
        is_listing(keys, replay_dir(after).index.dom()) && keys_ascend(keys) && after[0].1
            == live_records(before, replay_dir(before).index, keys) && after[0].1.len()
            == #[trigger] live_size(keys, replay_dir(after).index)
}

/// Whether compaction is due in `d` and there are generations left for it.
pub open spec fn compaction_due(d: Seq<(u64, Seq<u8>)>) -> bool {
    replay_dir(d).uncompacted > COMPACTION_THRESHOLD && d.last().0 <= u64::MAX - 2
}

/// Whether `after` is what writing the record `r` makes of `before`: the
/// record stands at the end of the last log, and the directory is compacted
/// if that is due.
pub open spec fn written(before: Seq<(u64, Seq<u8>)>, r: Record, after: Seq<(u64, Seq<u8>)>) -> bool {
    let mid = appended(before, encode_record(r)->0);
    if compaction_due(mid) {
        compacted(mid, after)
    } else {
        after == mid
    }
}

/// The safe point after the record `r` is written to `before`.
pub open spec fn safe_point_after(before: Seq<(u64, Seq<u8>)>, r: Record, safe_point: u64) -> u64 {
    let mid = appended(before, encode_record(r)->0);
    if compaction_due(mid) {
        (mid.last().0 + 1) as u64
    } else {
        safe_point
    }
}

/// The state of the one writer of a store.
#[derive(Debug)]
pub struct KvStoreWriter {
    reader: KvStoreReader,
    writer: BufWriterWithPos,
    current_gen: u64,
    uncompacted: u64,
}

impl KvStoreWriter {
    /// The generation that the writer appends to.
    pub closed spec fn current_gen_spec(&self) -> u64 {
        self.current_gen
    }

    /// The number of bytes that stale records take.
    pub closed spec fn uncompacted_spec(&self) -> u64 {
        self.uncompacted
    }

    /// Whether the writer belongs to the directory, the index and the safe
    /// point given.
    pub closed spec fn wf(
        &self,
        d: Seq<(u64, Seq<u8>)>,
        index: Map<Seq<char>, CommandPos>,
        safe_point: u64,
    ) -> bool {
        &&& consistent(d, index, self.current_gen, self.uncompacted, safe_point)
        &&& self.reader.wf()
        &&& self.writer.gen() == self.current_gen
        &&& self.writer.at_end(d)
    }

    /// A writer belongs to what it was made for.
    pub proof fn lemma_wf(
        &self,
        d: Seq<(u64, Seq<u8>)>,
        index: Map<Seq<char>, CommandPos>,
        safe_point: u64,
    )
        requires
            self.wf(d, index, safe_point),
        ensures
            consistent(d, index, self.current_gen(), self.uncompacted(), safe_point),
    {
    }

    /// The generation that the writer appends to.
    #[verifier::when_used_as_spec(current_gen_spec)]
    pub fn current_gen(&self) -> (gen: u64)
        ensures
            gen == self.current_gen_spec(),
    {
        self.current_gen
    }

    /// The number of bytes that stale records take.
    #[verifier::when_used_as_spec(uncompacted_spec)]
    pub fn uncompacted(&self) -> (n: u64)
        ensures
            n == self.uncompacted_spec(),
    {
        self.uncompacted
    }

    /// The writer of a directory whose logs have been read into `index`:
    /// creates the log of the generation `current_gen`, which is above all
    /// the others.
    pub fn new(dir: &mut LogDir, index: &Index, current_gen: u64, uncompacted: u64) -> (writer:
        KvStoreWriter)
        requires
            old(dir).wf(),
            replay_dir(old(dir)@).index == index@,
            kept(replay_dir(old(dir)@).uncompacted) == uncompacted,
            forall|i: int| 0 <= i < old(dir)@.len() ==> (#[trigger] old(dir)@[i]).0 < current_gen,
        ensures
            final(dir).wf(),
            final(dir).journaling() == old(dir).journaling(),
            final(dir).base() == old(dir).base(),
            final(dir)@ == old(dir)@.push((current_gen, Seq::<u8>::empty())),
            writer.wf(final(dir)@, index@, 0),
            writer.current_gen() == current_gen,
            writer.uncompacted() == uncompacted,
    {
        proof {
            dir.lemma_sizes_fit();
            crate::replay::lemma_dir_push_empty(dir@, current_gen);
        }
        let writer = new_log_file(dir, current_gen);
        KvStoreWriter { reader: KvStoreReader::new(), writer, current_gen, uncompacted }
    }

    /// Appends the record of `cmd` and has the index follow; compacts if
    /// that is due.
    #[verifier::rlimit(50)]
    fn write_command(
        &mut self,
        dir: &mut LogDir,
        index: &mut Index,
        safe_point: &mut u64,
        cmd: Command,
    ) -> (r: Result<(), KvsError>)
        requires
            old(dir).wf(),
            old(self).wf(old(dir)@, old(index)@, *old(safe_point)),
            cmd is Remove ==> old(index)@.contains_key(cmd@.key()),
        ensures
            final(dir).wf(),
            final(dir).journaling() == old(dir).journaling(),
            final(dir).base() == old(dir).base(),
            final(self).wf(final(dir)@, final(index)@, *final(safe_point)),
            match r {
                Ok(()) => round_trips(cmd@) && written(old(dir)@, cmd@, final(dir)@)
                    && *final(safe_point) == safe_point_after(old(dir)@, cmd@, *old(safe_point))
                    && dir_contents(final(dir)@) == apply_to_contents(
                    dir_contents(old(dir)@),
                    cmd@,
                ),
                Err(e) => e is SerdeErr && !round_trips(cmd@) && final(dir)@ == old(dir)@ && final(index)@ == old(index)@ && *final(safe_point) == *old(safe_point),
            },
    {
        let bytes = match encode(&cmd) {
            Ok(bytes) => bytes,
            Err(e) => {
                return Err(e);
            },
        };
        let pos = self.writer.pos();
        proof {
            lemma_gen_at(dir@, dir@.len() - 1);
        }
        match self.writer.write(dir, bytes.as_slice()) {
            Ok(_) => {},
            Err(e) => {
                assert(false);
                return Err(e);
            },
        }
        proof {
            dir.lemma_sizes_fit();
            assert(dir@ == appended(old(dir)@, bytes@));
            lemma_dir_append(old(dir)@, bytes@, cmd@);
            lemma_gen_at(dir@, dir@.len() - 1);
        }
        let at = CommandPos { gen: self.current_gen, pos, len: self.writer.pos() - pos };
        match cmd {
            Command::Put { key, .. } => {
                if let Some(old_cmd) = index.get(key.as_str()) {
                    self.uncompacted = self.uncompacted.saturating_add(old_cmd.len);
                }
                index.insert(key, at);
            },
            Command::Remove { key } => {
                if let Some(old_cmd) = index.remove(key.as_str()) {
                    self.uncompacted = self.uncompacted.saturating_add(old_cmd.len);
                }
                self.uncompacted = self.uncompacted.saturating_add(at.len);
            },
        }
        assert(index@ =~= replay_dir(dir@).index);
        if self.uncompacted > COMPACTION_THRESHOLD && self.current_gen <= u64::MAX - 2 {
            self.compact(dir, index, safe_point);
        }
        Ok(())
    }

    /// Binds `key` to `value`: appends a `Put` and has the index point at
    /// it; compacts if that is due. Nothing is written if the record cannot
    /// be encoded.
    pub fn set(
        &mut self,
        dir: &mut LogDir,
        index: &mut Index,
        safe_point: &mut u64,
        key: String,
        value: String,
    ) -> (r: Result<(), KvsError>)
        requires
            old(dir).wf(),
            old(self).wf(old(dir)@, old(index)@, *old(safe_point)),
        ensures
            final(dir).wf(),
            final(dir).journaling() == old(dir).journaling(),
            final(dir).base() == old(dir).base(),
            final(self).wf(final(dir)@, final(index)@, *final(safe_point)),
            match r {
                Ok(()) => round_trips(Record::Put { key: key@, value: value@ }) && written(
                    old(dir)@,
                    Record::Put { key: key@, value: value@ },
                    final(dir)@,
                ) && *final(safe_point) == safe_point_after(
                    old(dir)@,
                    Record::Put { key: key@, value: value@ },
                    *old(safe_point),
                ) && dir_contents(final(dir)@) == dir_contents(old(dir)@).insert(key@, value@),
                Err(e) => e is SerdeErr && !round_trips(Record::Put { key: key@, value: value@ })
                    && final(dir)@ == old(dir)@ && final(index)@ == old(index)@ && *final(safe_point) == *old(safe_point),
            },
    {
        self.write_command(dir, index, safe_point, Command::Put { key, value })
    }

    /// Unbinds `key`: appends a `Remove` and drops the key from the index;
    /// compacts if that is due. Nothing is written if the key is not bound
    /// or the record cannot be encoded.
    pub fn remove(
        &mut self,
        dir: &mut LogDir,
        index: &mut Index,
        safe_point: &mut u64,
        key: String,
    ) -> (r: Result<(), KvsError>)
        requires
            old(dir).wf(),
            old(self).wf(old(dir)@, old(index)@, *old(safe_point)),
        ensures
            final(dir).wf(),
            final(dir).journaling() == old(dir).journaling(),
            final(dir).base() == old(dir).base(),
            final(self).wf(final(dir)@, final(index)@, *final(safe_point)),
            match r {
                Ok(()) => old(index)@.contains_key(key@) && round_trips(Record::Remove { key: key@ })
                    && written(old(dir)@, Record::Remove { key: key@ }, final(dir)@) && *final(safe_point) == safe_point_after(old(dir)@, Record::Remove { key: key@ }, *old(safe_point))
                    && dir_contents(final(dir)@) == dir_contents(old(dir)@).remove(key@),
                Err(e) => final(dir)@ == old(dir)@ && final(index)@ == old(index)@ && *final(safe_point) == *old(safe_point) && if old(index)@.contains_key(key@) {
                    e is SerdeErr && !round_trips(Record::Remove { key: key@ })
                } else {
                    e is KeyNotFound
                },
            },
    {
        if index.contains_key(key.as_str()) {
            self.write_command(dir, index, safe_point, Command::Remove { key })
        } else {
            Err(KvsError::KeyNotFound)
        }
    }

    /// Rewrites the live records into the log of the generation after the
    /// writer's, moves the writer to the generation after that, raises the
    /// safe point and deletes the logs below it.
    #[verifier::rlimit(50)]
    pub fn compact(&mut self, dir: &mut LogDir, index: &mut Index, safe_point: &mut u64)
        requires
            old(dir).wf(),
            old(self).wf(old(dir)@, old(index)@, *old(safe_point)),
            old(self).current_gen() <= u64::MAX - 2,
        ensures
            final(dir).wf(),
            final(dir).journaling() == old(dir).journaling(),
            final(dir).base() == old(dir).base(),
            final(self).wf(final(dir)@, final(index)@, *final(safe_point)),
            compacted(old(dir)@, final(dir)@),
            *final(safe_point) == old(self).current_gen() + 1,
    {
        let ghost d0 = dir@;
        let ghost i0 = index@;
        proof {
            lemma_gen_at(d0, d0.len() - 1);
        }
        let compaction_gen = self.current_gen + 1;
        self.current_gen = self.current_gen + 2;
        let mut compaction_writer = new_log_file(dir, compaction_gen);
        self.writer = new_log_file(dir, self.current_gen);
        let keys = index.keys();
        let ghost views = key_views(keys@);
        let ghost mut moved: Map<Seq<char>, CommandPos> = Map::empty();
        let mut new_pos: u64 = 0;
        let mut j: usize = 0;
        proof {
            dir.lemma_sizes_fit();
            assert(sizes_fit(d0)) by {
                assert forall|i: int| 0 <= i < d0.len() implies (#[trigger] d0[i]).1.len()
                    <= u64::MAX by {
                    assert(dir@[i] == d0[i]);
                }
            }
            lemma_replay_dir_valid(d0);
            lemma_gen_at(dir@, d0.len() as int);
            assert(views.take(0) =~= Seq::<Seq<char>>::empty());
        }
        while j < keys.len()
            invariant
                dir.wf(),
                dir.journaling() == old(dir).journaling(),
                dir.base() == old(dir).base(),
                ascending(d0),
                index_valid(d0, i0),
                self.reader.wf(),
                views == key_views(keys@),
                is_listing(views, i0.dom()),
                keys_ascend(views),
                j <= keys.len(),
                dir@[d0.len() as int].1 == live_records(d0, i0, views.take(j as int)),
                dir@.len() == d0.len() + 2,
                forall|i: int| 0 <= i < d0.len() ==> dir@[i] == d0[i],
                dir@[d0.len() as int].0 == compaction_gen,
                dir@[d0.len() as int + 1] == ((self.current_gen, Seq::<u8>::empty())),
                compaction_writer.gen() == compaction_gen,
                compaction_writer.at_end(dir@),
                d0.len() > 0,
                d0.last().0 + 1 == compaction_gen,
                self.current_gen == compaction_gen + 1,
                self.writer.gen() == self.current_gen,
                self.writer.pos() == 0,
                new_pos == dir@[d0.len() as int].1.len(),
                index@.dom() == i0.dom(),
                forall|k: Seq<char>|
                    moved.contains_key(k) <==> exists|i: int| 0 <= i < j && #[trigger] views[i] == k,
                forall|k: Seq<char>|
                    i0.contains_key(k) && !moved.contains_key(k) ==> #[trigger] index@[k] == i0[k],
                forall|k: Seq<char>| #[trigger]
                    moved.contains_key(k) ==> index@[k] == moved[k] && moved[k].gen
                        == compaction_gen && moved[k].len == i0[k].len && moved[k].pos + moved[k].len
                        <= new_pos && dir@[d0.len() as int].1.subrange(
                        moved[k].pos as int,
                        moved[k].pos + moved[k].len,
                    ) == data_of(d0, i0[k].gen).subrange(i0[k].pos as int, i0[k].pos + i0[k].len),
                replay_log(dir@[d0.len() as int].1, compaction_gen, 0, empty_state()) == (
                IndexState { index: moved, uncompacted: 0 }),
                clean_from(dir@[d0.len() as int].1, 0),
                new_pos == live_size(views.take(j as int), i0),
            decreases keys.len() - j,
        {
            let key = &keys[j];
            let ghost k = key@;
            let ghost out = dir@[d0.len() as int].1;
            let ghost before = dir@;
            assert(views[j as int] == k);
            assert(i0.contains_key(k));
            assert(!moved.contains_key(k));
            let at = match index.get(key.as_str()) {
                Some(at) => at,
                None => {
                    assert(false);
                    return ;
                },
            };
            proof {
                assert(entry_valid(d0, k, i0[k]));
                let gi = gen_at(d0, at.gen);
                assert(dir@[gi] == d0[gi]);
                lemma_gen_at(dir@, gi);
            }
            let chunk = match self.reader.read_and(dir, *safe_point, at) {
                Ok(bytes) => slice_to_vec(bytes),
                Err(e) => {
                    assert(false);
                    return ;
                },
            };
            let ghost rec = record_at(d0, at)->0;
            proof {
                assert(chunk@ == data_of(d0, at.gen).subrange(at.pos as int, at.pos + at.len));
                assert(decode_record(chunk@) == Some((rec, chunk@.len() as int)));
                lemma_gen_at(dir@, d0.len() as int);
            }
            match compaction_writer.write(dir, chunk.as_slice()) {
                Ok(_) => {},
                Err(e) => {
                    assert(false);
                    return ;
                },
            }
            let len = chunk.len() as u64;
            let to = CommandPos { gen: compaction_gen, pos: new_pos, len };
            proof {
                dir.lemma_sizes_fit();
                lemma_gen_at(dir@, d0.len() as int);
                lemma_replay_log_append(out, chunk@, rec, compaction_gen, 0, empty_state());
                let grown = dir@[d0.len() as int].1;
                assert(grown == out + chunk@);
                assert(grown.subrange(new_pos as int, new_pos + len) =~= chunk@);
                assert forall|k2: Seq<char>| #[trigger] moved.contains_key(k2) implies grown.subrange(
                    moved[k2].pos as int,
                    moved[k2].pos + moved[k2].len,
                ) == out.subrange(moved[k2].pos as int, moved[k2].pos + moved[k2].len) by {
                    assert(grown.subrange(moved[k2].pos as int, moved[k2].pos + moved[k2].len)
                        =~= out.subrange(moved[k2].pos as int, moved[k2].pos + moved[k2].len));
                }
                assert(views.take(j + 1).drop_last() =~= views.take(j as int));
                moved = moved.insert(k, to);
                assert(replay_log(grown, compaction_gen, 0, empty_state()).index =~= moved);
            }
            index.insert(key.clone(), to);
            new_pos = new_pos + len;
            j = j + 1;
            proof {
                assert(index@.dom() =~= i0.dom());
                assert forall|k2: Seq<char>|
                    moved.contains_key(k2) <==> exists|i: int|
                        0 <= i < j && #[trigger] views[i] == k2 by {
                    if k2 == k {
                        assert(views[j - 1] == k2);
                    }
                }
            }
        }
        *safe_point = compaction_gen;
        self.reader.close_stale_handlers(compaction_gen);
        let ghost full = dir@;
        proof {
            lemma_gen_at(dir@, d0.len() as int + 1);
        }
        let deleted = dir.delete_below(compaction_gen);
        self.uncompacted = 0;
        proof {
            assert(deleted == d0.len()) by {
                if deleted < d0.len() {
                    assert(full[deleted as int].0 >= compaction_gen);
                    assert(full[deleted as int] == d0[deleted as int]);
                    assert(d0[deleted as int].0 <= d0[d0.len() - 1].0);
                } else if deleted > d0.len() {
                    assert(full[d0.len() as int].0 < compaction_gen);
                }
            }
            let after = dir@;
            let out = full[d0.len() as int].1;
            assert(after =~= seq![(compaction_gen, out), (self.current_gen, Seq::<u8>::empty())]);
            assert(views.take(views.len() as int) =~= views);
            assert(moved =~= index@);
            assert(after.drop_last() =~= seq![(compaction_gen, out)]);
            assert(after.drop_last().drop_last() =~= Seq::<(u64, Seq<u8>)>::empty());
            reveal_with_fuel(replay_dir, 3);
            assert(replay_dir(after.drop_last()).index == moved);
            assert(replay_dir(after).index == moved);
            assert(replay_dir(after).uncompacted == 0);
            lemma_gen_at(after, 0);
            lemma_gen_at(after, 1);
            assert forall|k2: Seq<char>| i0.contains_key(k2) implies value_at(after, moved[k2])
                == value_at(d0, i0[k2]) by {
                assert(entry_valid(d0, k2, i0[k2]));
                assert(moved.contains_key(k2));
            }
            assert(dir_contents(after) =~= dir_contents(d0));
            assert(live_size(views, moved) == live_size(views, i0)) by {
                lemma_live_size_same(views, moved, i0);
            }
        }
    }
}

/// Two indexes that bind the keys of `keys` to records of the same lengths
/// hold as many live bytes.
pub proof fn lemma_live_size_same(
    keys: Seq<Seq<char>>,
    a: Map<Seq<char>, CommandPos>,
    b: Map<Seq<char>, CommandPos>,
)
    requires
        forall|i: int| 0 <= i < keys.len() ==> a[#[trigger] keys[i]].len == b[keys[i]].len,
    ensures
        live_size(keys, a) == live_size(keys, b),
    decreases keys.len(),
{
    if keys.len() > 0 {
        lemma_live_size_same(keys.drop_last(), a, b);
    }
}

} // verus!
