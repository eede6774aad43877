//! The reader of a store handle: the logs that the handle has open, and how
//! a record is read through them.
//!
//! A handle opens a log the first time it reads from it and keeps it open.
//! Before every read it closes the logs of the generations below the safe
//! point: after a compaction no key is bound to a record in them.

use crate::bufio::BufReaderWithPos;
use crate::codec::{decode, decode_record, Command, Record};
use crate::frame::{skip_space, skip_space_from};
use crate::dir::{clip, data_of, has_gen, LogDir};
use crate::error::KvsError;
use crate::index::CommandPos;
use vstd::prelude::*;
use vstd::string::StringExecFns;

verus! {

/// The open logs of one handle, ascending by generation.
#[derive(Debug)]
pub struct KvStoreReader {
    readers: Vec<BufReaderWithPos>,
}

/// The record that `bytes` holds, where they hold one record and, besides
/// it, white space only.
pub open spec fn decode_whole(bytes: Seq<u8>) -> Option<Record> {
    match decode_record(bytes) {
        Some((r, end)) => if skip_space(bytes, end) == bytes.len() {
            Some(r)
        } else {
            None
        },
        None => None,
    }
}

/// Reads the one record that `bytes` holds.
pub fn decode_one(bytes: &[u8]) -> (r: Result<Command, KvsError>)
    ensures
        match r {
            Ok(cmd) => decode_whole(bytes@) == Some(cmd@),
            Err(e) => decode_whole(bytes@) is None && e is SerdeErr,
        },
{
    match decode(bytes) {
        Ok((cmd, end)) => {
            proof {
                crate::codec::lemma_decode_bounds(bytes@);
            }
            if skip_space_from(bytes, end) == bytes.len() {
                Ok(cmd)
            } else {
                Err(KvsError::SerdeErr(String::from_str("trailing characters")))
            }
        },
        Err(e) => Err(e),
    }
}

impl KvStoreReader {
    /// Whether the handle has the log of generation `gen` open.
    pub closed spec fn is_open(&self, gen: u64) -> bool {
        exists|i: int| 0 <= i < self.readers@.len() && (#[trigger] self.readers@[i]).gen() == gen
    }

    /// The open logs ascend by generation.
    pub closed spec fn wf(&self) -> bool {
        forall|i: int, j: int|
            0 <= i < j < self.readers@.len() ==> (#[trigger] self.readers@[i]).gen() < (
            #[trigger] self.readers@[j]).gen()
    }

    /// A handle with no log open.
    pub fn new() -> (reader: KvStoreReader)
        ensures
            reader.wf(),
            forall|gen: u64| !reader.is_open(gen),
    {
        KvStoreReader { readers: Vec::new() }
    }

    /// Tells whether the handle has the log of generation `gen` open.
    pub fn has_open(&self, gen: u64) -> (open: bool)
        ensures
            open == self.is_open(gen),
    {
        let mut i: usize = 0;
        while i < self.readers.len()
            invariant
                i <= self.readers.len(),
                forall|j: int| 0 <= j < i ==> (#[trigger] self.readers@[j]).gen() != gen,
            decreases self.readers.len() - i,
        {
            if self.readers[i].gen() == gen {
                return true;
            }
            i = i + 1;
        }
        false
    }

    /// Opens the log of generation `gen`, unless it is open.
    pub fn open_log(&mut self, gen: u64)
        requires
            old(self).wf(),
        ensures
            final(self).wf(),
            forall|g: u64| final(self).is_open(g) == (old(self).is_open(g) || g == gen),
    {
        let _ = self.open_at(gen);
    }

    /// Opens the log of generation `gen`, unless it is open, and tells where
    /// its reader stands among the others.
    fn open_at(&mut self, gen: u64) -> (at: usize)
        requires
            old(self).wf(),
        ensures
            final(self).wf(),
            forall|g: u64| final(self).is_open(g) == (old(self).is_open(g) || g == gen),
            at < final(self).readers@.len(),
            final(self).readers@[at as int].gen() == gen,
    {
        let mut i: usize = 0;
        while i < self.readers.len() && self.readers[i].gen() < gen
            invariant
                self.wf(),
                *self == *old(self),
                i <= self.readers.len(),
                forall|j: int| 0 <= j < i ==> (#[trigger] self.readers@[j]).gen() < gen,
            decreases self.readers.len() - i,
        {
            i = i + 1;
        }
        if i < self.readers.len() && self.readers[i].gen() == gen {
            return i;
        }
        proof {
            assert(i < self.readers@.len() ==> self.readers@[i as int].gen() > gen);
        }
        self.readers.insert(i, BufReaderWithPos::new(gen));
        proof {
            let before = old(self).readers@;
            let after = self.readers@;
            assert forall|a: int, b: int| 0 <= a < b < after.len() implies (#[trigger] after[a]).gen()
                < (#[trigger] after[b]).gen() by {
                let oa = if a < i { a } else { a - 1 };
                let ob = if b < i { b } else { b - 1 };
                if a != i && b != i {
                    assert(before[oa].gen() < before[ob].gen());
                } else if a == i {
                    assert(before[ob].gen() >= before[i as int].gen() || ob == i);
                } else {
                    assert(before[oa].gen() < gen);
                }
            }
            assert forall|g: u64| final(self).is_open(g) == (old(self).is_open(g) || g == gen) by {
                if old(self).is_open(g) {
                    let j = choose|j: int| 0 <= j < before.len() && (#[trigger] before[j]).gen() == g;
                    let nj = if j < i { j } else { j + 1 };
                    assert(after[nj].gen() == g);
                }
                if g == gen {
                    assert(after[i as int].gen() == g);
                }
                if final(self).is_open(g) && g != gen {
                    let j = choose|j: int| 0 <= j < after.len() && (#[trigger] after[j]).gen() == g;
                    let oj = if j < i { j } else { j - 1 };
                    assert(before[oj].gen() == g);
                }
            }
        }
        i
    }

    /// Closes the logs of the generations below `safe_point`.
    pub fn close_stale_handlers(&mut self, safe_point: u64)
        requires
            old(self).wf(),
        ensures
            final(self).wf(),
            forall|g: u64| final(self).is_open(g) == (old(self).is_open(g) && g >= safe_point),
    {
        let ghost mut closed: int = 0;
        assert(self.readers@ =~= old(self).readers@.subrange(0, old(self).readers@.len() as int));
        while self.readers.len() > 0 && self.readers[0].gen() < safe_point
            invariant
                self.wf(),
                old(self).wf(),
                0 <= closed,
                closed + self.readers.len() == old(self).readers@.len(),
                forall|i: int| 0 <= i < closed ==> (#[trigger] old(self).readers@[i]).gen() < safe_point,
                self.readers@ == old(self).readers@.subrange(
                    closed,
                    old(self).readers@.len() as int,
                ),
            decreases self.readers.len(),
        {
            let ghost before = self.readers@;
            self.readers.remove(0);
            proof {
                assert(self.readers@ =~= before.remove(0));
                assert(self.readers@ =~= old(self).readers@.subrange(
                    closed + 1,
                    old(self).readers@.len() as int,
                ));
                assert(old(self).readers@[closed] == before[0]);
                closed = closed + 1;
            }
        }
        proof {
            let before = old(self).readers@;
            let after = self.readers@;
            assert forall|g: u64| final(self).is_open(g) == (old(self).is_open(g) && g
                >= safe_point) by {
                if final(self).is_open(g) {
                    let j = choose|j: int| 0 <= j < after.len() && (#[trigger] after[j]).gen() == g;
                    assert(before[closed + j] == after[j]);
                    assert(after[0] == before[closed]);
                    if j > 0 {
                        assert(after[0].gen() < after[j].gen());
                    }
                }
                if old(self).is_open(g) && g >= safe_point {
                    let j = choose|j: int| 0 <= j < before.len() && (#[trigger] before[j]).gen() == g;
                    assert(j >= closed);
                    assert(after[j - closed] == before[j]);
                }
            }
        }
    }

    /// Reads the bytes that lie at `at`: closes the stale logs, opens the
    /// log of `at`, unless it is open, and reads from it. Bytes past the end
    /// of the log are left out.
    pub fn read_and<'a>(&mut self, dir: &'a LogDir, safe_point: u64, at: CommandPos) -> (r: Result<
        &'a [u8],
        KvsError,
    >)
        requires
            old(self).wf(),
            dir.wf(),
        ensures
            final(self).wf(),
            match r {
                Ok(bytes) => has_gen(dir@, at.gen) && bytes@ == clip(
                    data_of(dir@, at.gen),
                    at.pos,
                    at.len,
                ) && forall|g: u64|
                    final(self).is_open(g) == (old(self).is_open(g) && g >= safe_point || g
                        == at.gen),
                Err(e) => !has_gen(dir@, at.gen) && e is IoErr && forall|g: u64|
                    final(self).is_open(g) == (old(self).is_open(g) && g >= safe_point),
            },
    {
        self.close_stale_handlers(safe_point);
        if dir.find(at.gen).is_none() {
            return Err(KvsError::IoErr(String::from_str("no log of this generation")));
        }
        let i = self.open_at(at.gen);
        let ghost opened = self.readers@;
        let mut reader = self.readers.remove(i);
        reader.seek(at.pos);
        let r = reader.read(dir, at.len);
        self.readers.insert(i, reader);
        proof {
            let after = self.readers@;
            assert(after.len() == opened.len());
            assert forall|j: int| 0 <= j < after.len() implies (#[trigger] after[j]).gen()
                == opened[j].gen() by {
                if j < i {
                    assert(after[j] == opened[j]);
                } else if j > i {
                    assert(after[j] == opened[j]);
                }
            }
            assert forall|g: u64|
                final(self).is_open(g) == (old(self).is_open(g) && g >= safe_point || g
                    == at.gen) by {
                if final(self).is_open(g) {
                    let j = choose|j: int| 0 <= j < after.len() && (#[trigger] after[j]).gen() == g;
                    assert(opened[j].gen() == g);
                }
                if old(self).is_open(g) && g >= safe_point || g == at.gen {
                    let j = choose|j: int| 0 <= j < opened.len() && (#[trigger] opened[j]).gen() == g;
                    assert(after[j].gen() == g);
                }
            }
        }
        r
    }

    /// Reads the record that lies at `at`.
    pub fn read_command(&mut self, dir: &LogDir, safe_point: u64, at: CommandPos) -> (r: Result<
        Command,
        KvsError,
    >)
        requires
            old(self).wf(),
            dir.wf(),
        ensures
            final(self).wf(),
            forall|g: u64|
                final(self).is_open(g) == (old(self).is_open(g) && g >= safe_point || g == at.gen
                    && has_gen(dir@, at.gen)),
            match r {
                Ok(cmd) => has_gen(dir@, at.gen) && decode_whole(
                    clip(data_of(dir@, at.gen), at.pos, at.len),
                ) == Some(cmd@),
                Err(e) => if has_gen(dir@, at.gen) {
                    e is SerdeErr && decode_whole(clip(data_of(dir@, at.gen), at.pos, at.len))
                        is None
                } else {
                    e is IoErr
                },
            },
    {
        match self.read_and(dir, safe_point, at) {
            Ok(bytes) => decode_one(bytes),
            Err(e) => Err(e),
        }
    }
}

impl Clone for KvStoreReader {
    /// A handle of its own, with no log open.
    fn clone(&self) -> (reader: Self)
        ensures
            reader.wf(),
            forall|gen: u64| !reader.is_open(gen),
    {
        KvStoreReader::new()
    }
}

} // verus!
