//! The store: the data directory, the index, one reader and the writer,
//! bound together.

use crate::codec::{decode, lemma_decode_bounds, Command, Record};
use crate::dir::{
    apply_changes, ascending, changes_of, clip, data_of, has_gen, sizes_fit, FileOp, LogDir,
};
use crate::error::KvsError;
use crate::index::{CommandPos, Index};
use crate::reader::KvStoreReader;
use crate::replay::{
    apply_record, dir_contents, entry_valid, kept, lemma_replay_dir_valid, replay_dir,
    replay_log, IndexState,
};
use crate::writer::{compacted, consistent, safe_point_after, written, KvStoreWriter};
use vstd::prelude::*;
use vstd::slice::slice_subrange;
use vstd::string::StringExecFns;

verus! {

/// Reads the records of the log `data` of generation `gen` into the index,
/// from the first record up to the end of the log or to the first bytes that
/// are no record. Returns the number of bytes that the records of this log
/// have made stale.
pub fn load(gen: u64, data: &[u8], index: &mut Index) -> (uncompacted: u64)
    ensures
        final(index)@ == replay_log(
            data@,
            gen,
            0,
            IndexState { index: old(index)@, uncompacted: 0 },
        ).index,
        uncompacted == kept(
            replay_log(
                data@,
                gen,
                0,
                IndexState { index: old(index)@, uncompacted: 0 },
            ).uncompacted,
        ),
{
    let mut pos: usize = 0;
    let mut uncompacted: u64 = 0;
    let ghost mut exact: nat = 0;
    loop
        invariant
            pos <= data.len(),
            uncompacted == kept(exact),
            replay_log(data@, gen, 0, IndexState { index: old(index)@, uncompacted: 0 })
                == replay_log(
                data@,
                gen,
                pos as int,
                IndexState { index: index@, uncompacted: exact },
            ),
        decreases data.len() - pos,
    {
        if pos >= data.len() {
            return uncompacted;
        }
        let rest = slice_subrange(data, pos, data.len());
        match decode(rest) {
            Err(_) => {
                return uncompacted;
            },
            Ok((cmd, n)) => {
                proof {
                    lemma_decode_bounds(rest@);
                }
                let at = CommandPos { gen, pos: pos as u64, len: n as u64 };
                let ghost st = IndexState { index: index@, uncompacted: exact };
                match cmd {
                    Command::Put { key, .. } => {
                        if let Some(old_cmd) = index.get(key.as_str()) {
                            uncompacted = uncompacted.saturating_add(old_cmd.len);
                        }
                        index.insert(key, at);
                    },
                    Command::Remove { key } => {
                        if let Some(old_cmd) = index.remove(key.as_str()) {
                            uncompacted = uncompacted.saturating_add(old_cmd.len);
                        }
                        uncompacted = uncompacted.saturating_add(at.len);
                    },
                }
                proof {
                    let next = apply_record(st, cmd@, at);
                    assert(next.index =~= index@);
                    exact = next.uncompacted;
                    assert(next == IndexState { index: index@, uncompacted: exact });
                }
                pos = pos + n;
            },
        }
    }
}

/// The value that a record read for `get` holds: the value of a `Put`.
/// Any other record where a `Put` was expected is an error.
pub fn value_of(cmd: Command) -> (r: Result<String, KvsError>)
    ensures
        match r {
            Ok(value) => cmd@ matches Record::Put { value: v, .. } && value@ == v,
            Err(e) => cmd@ is Remove && e is UnexpectedCommandErr,
        },
{
    match cmd {
        Command::Put { value, .. } => Ok(value),
        Command::Remove { .. } => Err(KvsError::UnexpectedCommandErr),
    }
}

/// The live keys and values after the record `r` is handed to the writer:
/// a record that cannot be written changes nothing.
pub open spec fn effect(m: Map<Seq<char>, Seq<char>>, r: Record) -> Map<Seq<char>, Seq<char>> {
    if crate::codec::round_trips(r) {
        crate::replay::apply_to_contents(m, r)
    } else {
        m
    }
}

/// What `get` answers, with the value as a sequence of characters; none if
/// it fails.
pub open spec fn answer(r: Result<Option<String>, KvsError>) -> Option<Option<Seq<char>>> {
    match r {
        Ok(Some(value)) => Some(Some(value@)),
        Ok(None) => Some(None),
        Err(_) => None,
    }
}

/// The value that `key` is bound to in `m`, if it is bound.
pub open spec fn lookup(m: Map<Seq<char>, Seq<char>>, key: Seq<char>) -> Option<Seq<char>> {
    if m.contains_key(key) {
        Some(m[key])
    } else {
        None
    }
}

/// A key/value store that keeps its records in the logs of a data
/// directory.
pub struct KvStore {
    dir: LogDir,
    index: Index,
    safe_point: u64,
    reader: KvStoreReader,
    writer: KvStoreWriter,
}

impl View for KvStore {
    type V = Map<Seq<char>, Seq<char>>;

    /// The live keys with their values.
    open spec fn view(&self) -> Map<Seq<char>, Seq<char>> {
        dir_contents(self.dir_view())
    }
}

impl KvStore {
    /// The data directory of the store.
    pub closed spec fn dir_view(&self) -> Seq<(u64, Seq<u8>)> {
        self.dir@
    }

    /// The index of the store.
    pub closed spec fn index_view(&self) -> Map<Seq<char>, CommandPos> {
        self.index@
    }

    /// The generation below which no key is bound to a record.
    pub closed spec fn safe_point_spec(&self) -> u64 {
        self.safe_point
    }

    /// The generation that the store appends to.
    pub closed spec fn current_gen_spec(&self) -> u64 {
        self.writer.current_gen()
    }

    /// The number of bytes that stale records take.
    pub closed spec fn uncompacted_spec(&self) -> u64 {
        self.writer.uncompacted()
    }

    /// Whether the store's reader has the log of generation `gen` open.
    pub closed spec fn has_open(&self, gen: u64) -> bool {
        self.reader.is_open(gen)
    }

    /// Whether the data directory keeps a journal of its changes.
    pub closed spec fn journaling(&self) -> bool {
        self.dir.journaling()
    }

    /// The data directory as it was when the journal was last taken.
    pub closed spec fn journal_base(&self) -> Seq<(u64, Seq<u8>)> {
        self.dir.base()
    }

    /// Whether the journal of `after` goes on from the journal of `before`.
    pub open spec fn same_journal(before: KvStore, after: KvStore) -> bool {
        after.journaling() == before.journaling() && after.journal_base() == before.journal_base()
    }

    /// Whether the parts of the store belong together.
    pub closed spec fn wf(&self) -> bool {
        &&& self.dir.wf()
        &&& self.reader.wf()
        &&& self.writer.wf(self.dir@, self.index@, self.safe_point)
    }

    /// What `set` makes of the store `before`: the store `after` and the
    /// result `r`. The key is bound to the value, on the inputs that can be
    /// written; the record stands at the end of the last log, and the
    /// directory is compacted if that is due. On the other inputs `set`
    /// fails and the directory is as it was.
    pub open spec fn set_post(
        before: KvStore,
        key: Seq<char>,
        value: Seq<char>,
        after: KvStore,
        r: Result<(), KvsError>,
    ) -> bool {
        let rec = Record::Put { key, value };
        &&& after.wf()
        &&& KvStore::same_journal(before, after)
        &&& after@ == effect(before@, rec)
        &&& forall|gen: u64| after.has_open(gen) == before.has_open(gen)
        &&& match r {
            Ok(()) => {
                &&& crate::codec::round_trips(rec)
                &&& written(before.dir_view(), rec, after.dir_view())
                &&& after.safe_point_spec() == safe_point_after(
                    before.dir_view(),
                    rec,
                    before.safe_point_spec(),
                )
            },
            Err(e) => {
                &&& e is SerdeErr
                &&& !crate::codec::round_trips(rec)
                &&& after.dir_view() == before.dir_view()
                &&& after.safe_point_spec() == before.safe_point_spec()
            },
        }
    }

    /// What `get` makes of the store `before`: the value that the key is
    /// bound to, if it is bound. The directory is as it was; the reader has
    /// closed its stale logs and opened the one that it read from.
    pub open spec fn get_post(
        before: KvStore,
        key: Seq<char>,
        after: KvStore,
        r: Result<Option<String>, KvsError>,
    ) -> bool {
        &&& after.wf()
        &&& KvStore::same_journal(before, after)
        &&& after.dir_view() == before.dir_view()
        &&& after.safe_point_spec() == before.safe_point_spec()
        &&& answer(r) == Some(lookup(before@, key))
        &&& forall|gen: u64|
            after.has_open(gen) == (if before@.contains_key(key) {
                before.has_open(gen) && gen >= before.safe_point_spec() || gen
                    == before.index_view()[key].gen
            } else {
                before.has_open(gen)
            })
    }

    /// What `remove` makes of the store `before`: the key is unbound, where
    /// it was bound and the record can be written. A key that is not bound
    /// is refused as not found, and the directory is as it was.
    pub open spec fn remove_post(
        before: KvStore,
        key: Seq<char>,
        after: KvStore,
        r: Result<(), KvsError>,
    ) -> bool {
        let rec = Record::Remove { key };
        &&& after.wf()
        &&& KvStore::same_journal(before, after)
        &&& after@ == effect(before@, rec)
        &&& forall|gen: u64| after.has_open(gen) == before.has_open(gen)
        &&& match r {
            Ok(()) => {
                &&& before@.contains_key(key)
                &&& crate::codec::round_trips(rec)
                &&& written(before.dir_view(), rec, after.dir_view())
                &&& after.safe_point_spec() == safe_point_after(
                    before.dir_view(),
                    rec,
                    before.safe_point_spec(),
                )
            },
            Err(e) => {
                &&& after.dir_view() == before.dir_view()
                &&& after.safe_point_spec() == before.safe_point_spec()
                &&& if before@.contains_key(key) {
                    e is SerdeErr && !crate::codec::round_trips(rec)
                } else {
                    e is KeyNotFound
                }
            },
        }
    }

    /// What `compact` makes of the store `before`: the live keys and values
    /// are the same; if there were generations left, the directory is
    /// compacted and the safe point is the generation of the compacted log.
    pub open spec fn compact_post(before: KvStore, after: KvStore, done: bool) -> bool {
        &&& after.wf()
        &&& KvStore::same_journal(before, after)
        &&& after@ == before@
        &&& forall|gen: u64| after.has_open(gen) == before.has_open(gen)
        &&& done == (before.current_gen_spec() <= u64::MAX - 2)
        &&& if done {
            compacted(before.dir_view(), after.dir_view()) && after.safe_point_spec()
                == before.current_gen_spec() + 1
        } else {
            after.dir_view() == before.dir_view() && after.safe_point_spec()
                == before.safe_point_spec()
        }
    }

    /// In a store the index and the count of stale bytes are what the data
    /// directory says, the last log is the one that the store appends to,
    /// and no log is of a generation below the safe point.
    pub proof fn lemma_wf(&self)
        requires
            self.wf(),
        ensures
            consistent(
                self.dir_view(),
                self.index_view(),
                self.current_gen_spec(),
                self.uncompacted_spec(),
                self.safe_point_spec(),
            ),
            sizes_fit(self.dir_view()),
    {
        self.writer.lemma_wf(self.dir@, self.index@, self.safe_point);
        self.dir.lemma_sizes_fit();
    }

    /// A store over an empty data directory.
    pub fn new() -> (store: KvStore)
        ensures
            store.wf(),
            store@ == Map::<Seq<char>, Seq<char>>::empty(),
            store.dir_view() == seq![(1u64, Seq::<u8>::empty())],
            store.safe_point_spec() == 0,
            store.uncompacted_spec() == 0,
            !store.journaling(),
    {
        let dir = LogDir::new();
        proof {
            assert(dir@ =~= Seq::<(u64, Seq<u8>)>::empty());
            assert(dir_contents(dir@) =~= Map::<Seq<char>, Seq<char>>::empty());
            assert(dir@.push((1u64, Seq::<u8>::empty())) =~= seq![(1u64, Seq::<u8>::empty())]);
        }
        match KvStore::open(dir) {
            Ok(store) => store,
            Err(_) => vstd::pervasive::unreached(),
        }
    }

    /// What `open` makes of the data directory `d`: a store that holds what
    /// the directory says, with a new, empty log of the next generation
    /// behind the others for the writer, every other log open in the
    /// reader, and the safe point at zero. Where the last log is of the
    /// last generation that there is, `open` fails.
    pub open spec fn open_post(d: Seq<(u64, Seq<u8>)>, r: Result<KvStore, KvsError>) -> bool {
        match r {
            Ok(store) => {
                &&& store.wf()
                &&& store.dir_view() == d.push((store.current_gen_spec(), Seq::<u8>::empty()))
                &&& store.current_gen_spec() == (if d.len() == 0 {
                    1
                } else {
                    d.last().0 + 1
                })
                &&& store@ == dir_contents(d)
                &&& store.index_view() == replay_dir(d).index
                &&& store.uncompacted_spec() == kept(replay_dir(d).uncompacted)
                &&& store.safe_point_spec() == 0
                &&& forall|gen: u64| store.has_open(gen) == has_gen(d, gen)
            },
            Err(e) => e is IoErr && d.len() > 0 && d.last().0 == u64::MAX,
        }
    }

    /// Opens the store of the data directory `dir`: reads every log into
    /// the index, oldest generation first, and creates the log of the next
    /// generation for the writer. Fails if there is no next generation.
    #[verifier::rlimit(50)]
    pub fn open(dir: LogDir) -> (r: Result<KvStore, KvsError>)
        requires
            dir.wf(),
        ensures
            KvStore::open_post(dir@, r),
            r matches Ok(store) ==> store.journaling() == dir.journaling() && store.journal_base()
                == dir.base(),
    {
        let ghost old_journaling = dir.journaling();
        let ghost old_base = dir.base();
        let mut dir = dir;
        let ghost d0 = dir@;
        let mut index = Index::new();
        let mut reader = KvStoreReader::new();
        let mut uncompacted: u64 = 0;
        let mut i: usize = 0;
        proof {
            assert(d0.take(0) =~= Seq::<(u64, Seq<u8>)>::empty());
        }
        while i < dir.len()
            invariant
                dir.wf(),
                dir@ == d0,
                dir.journaling() == old_journaling,
                dir.base() == old_base,
                i <= dir@.len(),
                reader.wf(),
                forall|gen: u64| reader.is_open(gen) == has_gen(d0.take(i as int), gen),
                index@ == replay_dir(d0.take(i as int)).index,
                uncompacted == kept(replay_dir(d0.take(i as int)).uncompacted),
            decreases dir@.len() - i,
        {
            let gen = dir.gen_of(i);
            let ghost before = index@;
            let stale = load(gen, dir.data_at(i), &mut index);
            uncompacted = uncompacted.saturating_add(stale);
            reader.open_log(gen);
            proof {
                assert(d0.take(i + 1).drop_last() =~= d0.take(i as int));
                assert(d0.take(i + 1).last() == d0[i as int]);
                assert forall|g: u64| reader.is_open(g) == has_gen(d0.take(i + 1), g) by {
                    if has_gen(d0.take(i as int), g) {
                        let j = choose|j: int|
                            0 <= j < d0.take(i as int).len() && (#[trigger] d0.take(i as int)[j]).0
                                == g;
                        assert(d0.take(i + 1)[j].0 == g);
                    }
                    if g == gen {
                        assert(d0.take(i + 1)[i as int].0 == g);
                    }
                    if has_gen(d0.take(i + 1), g) && g != gen {
                        let j = choose|j: int|
                            0 <= j < d0.take(i + 1).len() && (#[trigger] d0.take(i + 1)[j]).0 == g;
                        assert(d0.take(i as int)[j].0 == g);
                    }
                }
            }
            i = i + 1;
        }
        proof {
            assert(d0.take(i as int) =~= d0);
        }
        let last: u64 = if dir.len() == 0 {
            0
        } else {
            dir.gen_of(dir.len() - 1)
        };
        if last == u64::MAX {
            return Err(KvsError::IoErr(String::from_str("no generation is left for the writer")));
        }
        let current_gen = last + 1;
        proof {
            assert forall|j: int| 0 <= j < dir@.len() implies (#[trigger] dir@[j]).0
                < current_gen by {
                if j < dir@.len() - 1 {
                    assert(dir@[j].0 < dir@[dir@.len() - 1].0);
                }
            }
            dir.lemma_sizes_fit();
            crate::replay::lemma_dir_push_empty(dir@, current_gen);
        }
        let writer = KvStoreWriter::new(&mut dir, &index, current_gen, uncompacted);
        Ok(KvStore { dir, index, safe_point: 0, reader, writer })
    }

    /// Takes the journal of the data directory: the changes made to the
    /// directory since the journal was last taken, in their order.
    pub fn take_journal(&mut self) -> (ops: Vec<FileOp>)
        requires
            old(self).wf(),
        ensures
            final(self).wf(),
            final(self).dir_view() == old(self).dir_view(),
            final(self).safe_point_spec() == old(self).safe_point_spec(),
            forall|gen: u64| final(self).has_open(gen) == old(self).has_open(gen),
            final(self).journaling() == old(self).journaling(),
            final(self).journal_base() == old(self).dir_view(),
            old(self).journaling() ==> apply_changes(old(self).journal_base(), changes_of(ops@))
                == old(self).dir_view(),
            !old(self).journaling() ==> ops@.len() == 0,
    {
        self.dir.take_journal()
    }

    /// The data directory of the store.
    pub fn dir(&self) -> (dir: &LogDir)
        ensures
            dir@ == self.dir_view(),
            self.wf() ==> dir.wf(),
    {
        &self.dir
    }

    /// Closes the store and hands out its data directory.
    pub fn into_dir(self) -> (dir: LogDir)
        ensures
            dir@ == self.dir_view(),
            self.wf() ==> dir.wf(),
    {
        self.dir
    }

    /// Tells whether the store's reader has the log of generation `gen`
    /// open.
    pub fn reader_has_open(&self, gen: u64) -> (open: bool)
        ensures
            open == self.has_open(gen),
    {
        self.reader.has_open(gen)
    }

    /// The generation that the store appends to.
    #[verifier::when_used_as_spec(current_gen_spec)]
    pub fn current_gen(&self) -> (gen: u64)
        ensures
            gen == self.current_gen_spec(),
    {
        self.writer.current_gen()
    }

    /// The number of bytes that stale records take.
    #[verifier::when_used_as_spec(uncompacted_spec)]
    pub fn uncompacted(&self) -> (n: u64)
        ensures
            n == self.uncompacted_spec(),
    {
        self.writer.uncompacted()
    }

    /// The generation below which no key is bound to a record.
    #[verifier::when_used_as_spec(safe_point_spec)]
    pub fn safe_point(&self) -> (gen: u64)
        ensures
            gen == self.safe_point_spec(),
    {
        self.safe_point
    }

    /// Binds `key` to `value`. Fails, and changes nothing, if the record
    /// cannot be encoded.
    pub fn set(&mut self, key: String, value: String) -> (r: Result<(), KvsError>)
        requires
            old(self).wf(),
        ensures
            KvStore::set_post(*old(self), key@, value@, *final(self), r),
    {
        self.writer.set(&mut self.dir, &mut self.index, &mut self.safe_point, key, value)
    }

    /// Whether `r` is the answer to a `get` of `key` that is read through
    /// the reader `before`, which thereby becomes `after`: the value that
    /// the key is bound to, whatever the reader has open. The reader has
    /// closed its stale logs and opened the one that it read from.
    pub open spec fn read_post(
        self,
        before: KvStoreReader,
        key: Seq<char>,
        after: KvStoreReader,
        r: Result<Option<String>, KvsError>,
    ) -> bool {
        &&& after.wf()
        &&& answer(r) == Some(lookup(self@, key))
        &&& forall|gen: u64|
            after.is_open(gen) == (if self@.contains_key(key) {
                before.is_open(gen) && gen >= self.safe_point_spec() || gen
                    == self.index_view()[key].gen
            } else {
                before.is_open(gen)
            })
    }

    /// Reads the value that `key` is bound to through `reader`.
    fn read_through(
        dir: &LogDir,
        index: &Index,
        safe_point: u64,
        reader: &mut KvStoreReader,
        key: String,
    ) -> (r: Result<Option<String>, KvsError>)
        requires
            dir.wf(),
            old(reader).wf(),
            sizes_fit(dir@),
            ascending(dir@),
            index@ == replay_dir(dir@).index,
        ensures
            final(reader).wf(),
            answer(r) == Some(lookup(dir_contents(dir@), key@)),
            forall|gen: u64|
                final(reader).is_open(gen) == (if index@.contains_key(key@) {
                    old(reader).is_open(gen) && gen >= safe_point || gen == index@[key@].gen
                } else {
                    old(reader).is_open(gen)
                }),
    {
        proof {
            lemma_replay_dir_valid(dir@);
        }
        match index.get(key.as_str()) {
            Some(at) => {
                proof {
                    assert(entry_valid(dir@, key@, at));
                    let slice = clip(data_of(dir@, at.gen), at.pos, at.len);
                    assert(slice == data_of(dir@, at.gen).subrange(at.pos as int, at.pos + at.len));
                }
                match reader.read_command(dir, safe_point, at) {
                    Ok(cmd) => match value_of(cmd) {
                        Ok(value) => Ok(Some(value)),
                        Err(e) => Err(e),
                    },
                    Err(e) => Err(e),
                }
            },
            None => Ok(None),
        }
    }

    /// A reader of its own for the store, with no log open. Any number of
    /// readers may read from the store side by side.
    pub fn reader(&self) -> (reader: KvStoreReader)
        ensures
            reader.wf(),
            forall|gen: u64| !reader.is_open(gen),
    {
        self.reader.clone()
    }

    /// The value that `key` is bound to, if it is bound, read through a
    /// reader of the caller's. The store is left as it is.
    pub fn get_with(&self, reader: &mut KvStoreReader, key: String) -> (r: Result<
        Option<String>,
        KvsError,
    >)
        requires
            self.wf(),
            old(reader).wf(),
        ensures
            self.read_post(*old(reader), key@, *final(reader), r),
    {
        proof {
            self.lemma_wf();
        }
        Self::read_through(&self.dir, &self.index, self.safe_point, reader, key)
    }

    /// The value that `key` is bound to, if it is bound.
    pub fn get(&mut self, key: String) -> (r: Result<Option<String>, KvsError>)
        requires
            old(self).wf(),
        ensures
            KvStore::get_post(*old(self), key@, *final(self), r),
    {
        proof {
            self.lemma_wf();
        }
        Self::read_through(&self.dir, &self.index, self.safe_point, &mut self.reader, key)
    }

    /// Unbinds `key`. Fails, and changes nothing, if the key is not bound
    /// or the record cannot be encoded.
    pub fn remove(&mut self, key: String) -> (r: Result<(), KvsError>)
        requires
            old(self).wf(),
        ensures
            KvStore::remove_post(*old(self), key@, *final(self), r),
    {
        proof {
            self.lemma_wf();
        }
        let r = self.writer.remove(&mut self.dir, &mut self.index, &mut self.safe_point, key);
        proof {
            if !old(self)@.contains_key(key@) {
                assert(old(self)@.remove(key@) =~= old(self)@);
            }
        }
        r
    }

    /// Compacts the store, if there are generations left for it; tells
    /// whether it did.
    pub fn compact(&mut self) -> (done: bool)
        requires
            old(self).wf(),
        ensures
            KvStore::compact_post(*old(self), *final(self), done),
    {
        if self.writer.current_gen() <= u64::MAX - 2 {
            self.writer.compact(&mut self.dir, &mut self.index, &mut self.safe_point);
            true
        } else {
            false
        }
    }
}

} // verus!
