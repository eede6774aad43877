//! Readers and writers of one log that know where they stand.

use crate::dir::{clip, data_of, has_gen, LogDir};
use crate::error::KvsError;
use vstd::prelude::*;
use vstd::string::StringExecFns;

verus! {

/// A reader of the log of one generation, with the offset at which its next
/// read begins.
#[derive(Debug)]
pub struct BufReaderWithPos {
    gen: u64,
    pos: u64,
}

impl BufReaderWithPos {
    /// The generation that the reader reads.
    pub closed spec fn gen_spec(&self) -> u64 {
        self.gen
    }

    /// The offset at which the next read begins.
    pub closed spec fn pos_spec(&self) -> u64 {
        self.pos
    }

    /// A reader at the beginning of the log of generation `gen`.
    pub fn new(gen: u64) -> (reader: BufReaderWithPos)
        ensures
            reader.gen_spec() == gen,
            reader.pos_spec() == 0,
    {
        BufReaderWithPos { gen, pos: 0 }
    }

    /// The generation that the reader reads.
    #[verifier::when_used_as_spec(gen_spec)]
    pub fn gen(&self) -> (gen: u64)
        ensures
            gen == self.gen_spec(),
    {
        self.gen
    }

    /// The offset at which the next read begins.
    #[verifier::when_used_as_spec(pos_spec)]
    pub fn pos(&self) -> (pos: u64)
        ensures
            pos == self.pos_spec(),
    {
        self.pos
    }

    /// Moves the reader to the offset `pos`, which may lie behind the end of
    /// the log.
    pub fn seek(&mut self, pos: u64) -> (now: u64)
        ensures
            now == pos,
            final(self).pos() == pos,
            final(self).gen() == old(self).gen(),
    {
        self.pos = pos;
        pos
    }

    /// Reads up to `len` bytes where the reader stands and moves it behind
    /// them. Fails, and leaves the reader where it stood, if the directory
    /// holds no log of the reader's generation.
    pub fn read<'a>(&mut self, dir: &'a LogDir, len: u64) -> (r: Result<&'a [u8], KvsError>)
        requires
            dir.wf(),
        ensures
            final(self).gen() == old(self).gen(),
            match r {
                Ok(bytes) => has_gen(dir@, old(self).gen()) && bytes@ == clip(
                    data_of(dir@, old(self).gen()),
                    old(self).pos(),
                    len,
                ) && final(self).pos() == old(self).pos() + bytes@.len(),
                Err(e) => !has_gen(dir@, old(self).gen()) && e is IoErr && final(self).pos() == old(self).pos(),
            },
    {
        match dir.read_at(self.gen, self.pos, len) {
            Some(bytes) => {
                proof {
                    dir.lemma_sizes_fit();
                    crate::dir::lemma_gen_at(dir@, crate::dir::gen_at(dir@, self.gen));
                }
                self.pos = self.pos + bytes.len() as u64;
                Ok(bytes)
            },
            None => Err(KvsError::IoErr(String::from_str("no log of this generation"))),
        }
    }
}

/// A writer at the end of the log of one generation, with the offset at
/// which its next write begins.
#[derive(Debug)]
pub struct BufWriterWithPos {
    gen: u64,
    pos: u64,
}

impl BufWriterWithPos {
    /// The generation that the writer writes.
    pub closed spec fn gen_spec(&self) -> u64 {
        self.gen
    }

    /// The offset at which the next write begins.
    pub closed spec fn pos_spec(&self) -> u64 {
        self.pos
    }

    /// Whether the writer stands at the end of its log in `d`.
    pub open spec fn at_end(&self, d: Seq<(u64, Seq<u8>)>) -> bool {
        has_gen(d, self.gen()) && self.pos() == data_of(d, self.gen()).len()
    }

    /// The generation that the writer writes.
    #[verifier::when_used_as_spec(gen_spec)]
    pub fn gen(&self) -> (gen: u64)
        ensures
            gen == self.gen_spec(),
    {
        self.gen
    }

    /// The offset at which the next write begins.
    #[verifier::when_used_as_spec(pos_spec)]
    pub fn pos(&self) -> (pos: u64)
        ensures
            pos == self.pos_spec(),
    {
        self.pos
    }

    /// Writes `buf` at the end of the writer's log and moves the writer
    /// behind it. Fails, and writes nothing, if the directory holds no log
    /// of the writer's generation.
    pub fn write(&mut self, dir: &mut LogDir, buf: &[u8]) -> (r: Result<usize, KvsError>)
        requires
            old(dir).wf(),
            has_gen(old(dir)@, old(self).gen()) ==> old(self).at_end(old(dir)@),
        ensures
            final(dir).wf(),
            final(dir).journaling() == old(dir).journaling(),
            final(dir).base() == old(dir).base(),
            final(self).gen() == old(self).gen(),
            match r {
                Ok(n) => n == buf@.len() && has_gen(old(dir)@, old(self).gen()) && final(dir)@
                    == old(dir)@.update(
                    crate::dir::gen_at(old(dir)@, old(self).gen()),
                    (old(self).gen(), data_of(old(dir)@, old(self).gen()) + buf@),
                ) && final(self).at_end(final(dir)@),
                Err(e) => !has_gen(old(dir)@, old(self).gen()) && e is IoErr && final(dir)@ == old(dir)@ && final(self).pos() == old(self).pos(),
            },
    {
        if dir.append(self.gen, buf) {
            proof {
                dir.lemma_sizes_fit();
                crate::dir::lemma_gen_at(dir@, crate::dir::gen_at(old(dir)@, self.gen));
            }
            self.pos = self.pos + buf.len() as u64;
            Ok(buf.len())
        } else {
            Err(KvsError::IoErr(String::from_str("no log of this generation")))
        }
    }
}

/// Creates the log of generation `gen`, unless the directory holds it
/// already, and returns a writer that stands at its end.
pub fn new_log_file(dir: &mut LogDir, gen: u64) -> (writer: BufWriterWithPos)
    requires
        old(dir).wf(),
    ensures
        final(dir).wf(),
        final(dir).journaling() == old(dir).journaling(),
        final(dir).base() == old(dir).base(),
        writer.gen() == gen,
        writer.at_end(final(dir)@),
        has_gen(old(dir)@, gen) ==> final(dir)@ == old(dir)@,
        !has_gen(old(dir)@, gen) ==> writer.pos() == 0,
        (forall|j: int| 0 <= j < old(dir)@.len() ==> (#[trigger] old(dir)@[j]).0 < gen) ==> final(dir)@ == old(dir)@.push((gen, Seq::<u8>::empty())),
{
    let size = dir.create_log(gen);
    BufWriterWithPos { gen, pos: size as u64 }
}

} // verus!
