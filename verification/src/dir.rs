//! The data directory: one log of bytes for every generation.
//!
//! The directory is held in memory, as the generations in ascending order
//! with the bytes of each. Whoever keeps the files on disk reads them into a
//! `LogDir` before the store is opened and writes back what the store
//! changes.

use vstd::prelude::*;
use vstd::slice::{slice_subrange, slice_to_vec};

verus! {

/// The log of one generation.
#[derive(Debug)]
struct LogFile {
    gen: u64,
    data: Vec<u8>,
}

/// One change of a data directory, as it is made to the files on disk.
#[derive(Clone, Debug, PartialEq, Eq)]
pub enum FileOp {
    /// Create the log of generation `gen`, empty, unless it exists.
    Create { gen: u64 },
    /// Write `bytes` at the end of the log of generation `gen`.
    Append { gen: u64, bytes: Vec<u8> },
    /// Delete the log of generation `gen`.
    Delete { gen: u64 },
}

/// One change of a data directory.
pub enum Change {
    Create { gen: u64 },
    Append { gen: u64, bytes: Seq<u8> },
    Delete { gen: u64 },
}

impl View for FileOp {
    type V = Change;

    open spec fn view(&self) -> Change {
        match self {
            FileOp::Create { gen } => Change::Create { gen: *gen },
            FileOp::Append { gen, bytes } => Change::Append { gen: *gen, bytes: bytes@ },
            FileOp::Delete { gen } => Change::Delete { gen: *gen },
        }
    }
}

/// The logs of a data directory, ascending by generation, and, where a
/// journal is kept, the changes made since the journal was last taken.
pub struct LogDir {
    files: Vec<LogFile>,
    journaling: bool,
    journal: Vec<FileOp>,
    base: Ghost<Seq<(u64, Seq<u8>)>>,
}

/// Whether the generations ascend, so that none stands twice.
pub open spec fn ascending(d: Seq<(u64, Seq<u8>)>) -> bool {
    forall|i: int, j: int| 0 <= i < j < d.len() ==> (#[trigger] d[i]).0 < (#[trigger] d[j]).0
}

/// Whether the directory holds a log of generation `gen`.
pub open spec fn has_gen(d: Seq<(u64, Seq<u8>)>, gen: u64) -> bool {
    exists|i: int| 0 <= i < d.len() && (#[trigger] d[i]).0 == gen
}

/// Where the log of generation `gen` stands in the directory.
pub open spec fn gen_at(d: Seq<(u64, Seq<u8>)>, gen: u64) -> int {
    choose|i: int| 0 <= i < d.len() && (#[trigger] d[i]).0 == gen
}

/// The bytes of the log of generation `gen`.
pub open spec fn data_of(d: Seq<(u64, Seq<u8>)>, gen: u64) -> Seq<u8> {
    d[gen_at(d, gen)].1
}

/// The part of `data` that a read of `len` bytes at `pos` returns: what lies
/// past the end is left out.
pub open spec fn clip(data: Seq<u8>, pos: u64, len: u64) -> Seq<u8> {
    let from = if pos <= data.len() {
        pos as int
    } else {
        data.len() as int
    };
    let to = if pos + len <= data.len() {
        pos + len
    } else {
        data.len() as int
    };
    data.subrange(from, to)
}

/// Where a log of generation `gen` is put among the others: behind the logs
/// of the generations below it.
pub open spec fn insert_pos(d: Seq<(u64, Seq<u8>)>, gen: u64) -> int
    decreases d.len(),
{
    if d.len() == 0 || d.last().0 < gen {
        d.len() as int
    } else {
        insert_pos(d.drop_last(), gen)
    }
}

/// The directory after one change. A change that names a log that is not
/// there, or asks to create one that is, changes nothing.
pub open spec fn apply_change(d: Seq<(u64, Seq<u8>)>, c: Change) -> Seq<(u64, Seq<u8>)> {
    match c {
        Change::Create { gen } => if has_gen(d, gen) {
            d
        } else {
            d.insert(insert_pos(d, gen), (gen, Seq::empty()))
        },
        Change::Append { gen, bytes } => if has_gen(d, gen) {
            d.update(gen_at(d, gen), (gen, data_of(d, gen) + bytes))
        } else {
            d
        },
        Change::Delete { gen } => if has_gen(d, gen) {
            d.remove(gen_at(d, gen))
        } else {
            d
        },
    }
}

/// The directory after the changes, made in their order.
pub open spec fn apply_changes(d: Seq<(u64, Seq<u8>)>, cs: Seq<Change>) -> Seq<(u64, Seq<u8>)>
    decreases cs.len(),
{
    if cs.len() == 0 {
        d
    } else {
        apply_change(apply_changes(d, cs.drop_last()), cs.last())
    }
}

/// The changes that the operations stand for.
pub open spec fn changes_of(ops: Seq<FileOp>) -> Seq<Change> {
    Seq::new(ops.len(), |i: int| ops[i]@)
}

/// A log is put where the logs before it are of lower generations and the
/// logs behind it of higher ones.
pub proof fn lemma_insert_pos(d: Seq<(u64, Seq<u8>)>, gen: u64, i: int)
    requires
        ascending(d),
        0 <= i <= d.len(),
        forall|j: int| 0 <= j < i ==> (#[trigger] d[j]).0 < gen,
        forall|j: int| i <= j < d.len() ==> (#[trigger] d[j]).0 >= gen,
    ensures
        insert_pos(d, gen) == i,
    decreases d.len(),
{
    if d.len() > 0 && d.last().0 >= gen {
        assert(i < d.len());
        lemma_insert_pos(d.drop_last(), gen, i);
    } else if d.len() > 0 {
        if i < d.len() {
            assert(d[d.len() - 1].0 >= gen);
        }
    }
}

/// The number of bytes in all the logs.
pub open spec fn total_size(d: Seq<(u64, Seq<u8>)>) -> nat
    decreases d.len(),
{
    if d.len() == 0 {
        0
    } else {
        total_size(d.drop_last()) + d.last().1.len()
    }
}

/// Whether no log is longer than a position can tell.
pub open spec fn sizes_fit(d: Seq<(u64, Seq<u8>)>) -> bool {
    forall|i: int| 0 <= i < d.len() ==> (#[trigger] d[i]).1.len() <= u64::MAX
}

/// The directory `d` with `bytes` written at the end of its last log.
pub open spec fn appended(d: Seq<(u64, Seq<u8>)>, bytes: Seq<u8>) -> Seq<(u64, Seq<u8>)> {
    d.update(d.len() - 1, (d.last().0, d.last().1 + bytes))
}

/// In an ascending directory a generation stands in one place only.
pub proof fn lemma_gen_at(d: Seq<(u64, Seq<u8>)>, i: int)
    requires
        ascending(d),
        0 <= i < d.len(),
    ensures
        has_gen(d, d[i].0),
        gen_at(d, d[i].0) == i,
        data_of(d, d[i].0) == d[i].1,
{
    let j = gen_at(d, d[i].0);
    assert(0 <= j < d.len() && d[j].0 == d[i].0);
    if j < i {
        assert(d[j].0 < d[i].0);
    } else if i < j {
        assert(d[i].0 < d[j].0);
    }
}

impl View for LogDir {
    type V = Seq<(u64, Seq<u8>)>;

    closed spec fn view(&self) -> Seq<(u64, Seq<u8>)> {
        Seq::new(self.files@.len(), |i: int| (self.files@[i].gen, self.files@[i].data@))
    }
}

impl LogDir {
    /// The generations ascend, and the journal tells the changes made
    /// since it was last taken.
    pub open spec fn wf(&self) -> bool {
        ascending(self@) && self.journal_ok()
    }

    /// Whether the directory keeps a journal of its changes.
    pub closed spec fn journaling(&self) -> bool {
        self.journaling
    }

    /// The directory as it was when the journal was last taken.
    pub closed spec fn base(&self) -> Seq<(u64, Seq<u8>)> {
        self.base@
    }

    /// The changes made since the journal was last taken.
    pub closed spec fn pending(&self) -> Seq<Change> {
        changes_of(self.journal@)
    }

    /// Where a journal is kept, the changes in it make the directory, as it
    /// was when the journal was last taken, into the directory as it is.
    /// Where none is kept, none is pending.
    pub closed spec fn journal_ok(&self) -> bool {
        if self.journaling {
            apply_changes(self.base@, changes_of(self.journal@)) == self@
        } else {
            self.journal@.len() == 0
        }
    }

    /// An empty directory, which keeps no journal.
    pub fn new() -> (dir: LogDir)
        ensures
            dir@.len() == 0,
            dir.wf(),
            !dir.journaling(),
    {
        LogDir { files: Vec::new(), journaling: false, journal: Vec::new(), base: Ghost(Seq::empty()) }
    }

    /// Begins a journal of the changes made from now on.
    pub fn start_journal(&mut self)
        requires
            old(self).wf(),
        ensures
            final(self).wf(),
            final(self)@ == old(self)@,
            final(self).journaling(),
            final(self).base() == old(self)@,
            final(self).pending().len() == 0,
    {
        self.journaling = true;
        self.journal = Vec::new();
        self.base = Ghost(self@);
        assert(changes_of(self.journal@) =~= Seq::<Change>::empty());
    }

    /// Takes the journal: the changes made since it was last taken, in
    /// their order. Made to the directory as it was then, they give the
    /// directory as it is.
    pub fn take_journal(&mut self) -> (ops: Vec<FileOp>)
        requires
            old(self).wf(),
        ensures
            final(self).wf(),
            final(self)@ == old(self)@,
            final(self).journaling() == old(self).journaling(),
            final(self).base() == old(self)@,
            final(self).pending().len() == 0,
            changes_of(ops@) == old(self).pending(),
            old(self).journaling() ==> apply_changes(old(self).base(), changes_of(ops@)) == old(self)@,
            !old(self).journaling() ==> ops@.len() == 0,
    {
        let mut ops: Vec<FileOp> = Vec::new();
        core::mem::swap(&mut ops, &mut self.journal);
        self.base = Ghost(self@);
        assert(changes_of(self.journal@) =~= Seq::<Change>::empty());
        ops
    }

    /// Notes one change in the journal, if one is kept.
    fn note(&mut self, op: FileOp, Ghost(before): Ghost<Seq<(u64, Seq<u8>)>>)
        requires
            old(self).journaling ==> apply_changes(old(self).base@, changes_of(old(self).journal@))
                == before,
            !old(self).journaling ==> old(self).journal@.len() == 0,
            apply_change(before, op@) == old(self)@,
        ensures
            final(self).journal_ok(),
            final(self).files == old(self).files,
            final(self)@ == old(self)@,
            final(self).journaling == old(self).journaling,
            final(self).base == old(self).base,
            final(self).pending() == (if old(self).journaling {
                old(self).pending().push(op@)
            } else {
                old(self).pending()
            }),
    {
        if self.journaling {
            let ghost noted = changes_of(self.journal@);
            self.journal.push(op);
            proof {
                assert(changes_of(self.journal@) =~= noted.push(op@));
                assert(changes_of(self.journal@).drop_last() =~= noted);
            }
        }
    }

    /// The number of logs.
    pub fn len(&self) -> (n: usize)
        ensures
            n == self@.len(),
    {
        self.files.len()
    }

    /// The generation of the log that stands at `i`.
    pub fn gen_of(&self, i: usize) -> (gen: u64)
        requires
            i < self@.len(),
        ensures
            gen == self@[i as int].0,
    {
        self.files[i].gen
    }

    /// The bytes of the log that stands at `i`.
    pub fn data_at(&self, i: usize) -> (data: &[u8])
        requires
            i < self@.len(),
        ensures
            data@ == self@[i as int].1,
    {
        self.files[i].data.as_slice()
    }

    /// Finds the place of generation `gen`.
    pub fn find(&self, gen: u64) -> (at: Option<usize>)
        requires
            self.wf(),
        ensures
            match at {
                Some(i) => i < self@.len() && self@[i as int].0 == gen && has_gen(self@, gen)
                    && gen_at(self@, gen) == i,
                None => !has_gen(self@, gen),
            },
    {
        let mut i: usize = 0;
        while i < self.files.len()
            invariant
                self.wf(),
                i <= self.files.len(),
                forall|j: int| 0 <= j < i ==> (#[trigger] self@[j]).0 != gen,
            decreases self.files.len() - i,
        {
            if self.files[i].gen == gen {
                proof {
                    lemma_gen_at(self@, i as int);
                }
                return Some(i);
            }
            i = i + 1;
        }
        None
    }

    /// The generations of the directory, ascending.
    pub fn generations(&self) -> (gens: Vec<u64>)
        ensures
            gens@.len() == self@.len(),
            forall|i: int| 0 <= i < gens@.len() ==> gens@[i] == (#[trigger] self@[i]).0,
    {
        let mut gens: Vec<u64> = Vec::new();
        let mut i: usize = 0;
        while i < self.files.len()
            invariant
                i <= self.files.len(),
                gens@.len() == i,
                forall|j: int| 0 <= j < i ==> gens@[j] == (#[trigger] self@[j]).0,
            decreases self.files.len() - i,
        {
            gens.push(self.files[i].gen);
            i = i + 1;
        }
        gens
    }

    /// The number of bytes in the log of generation `gen`, if there is one.
    pub fn file_len(&self, gen: u64) -> (n: Option<usize>)
        requires
            self.wf(),
        ensures
            match n {
                Some(n) => has_gen(self@, gen) && n == data_of(self@, gen).len(),
                None => !has_gen(self@, gen),
            },
    {
        match self.find(gen) {
            Some(i) => Some(self.files[i].data.len()),
            None => None,
        }
    }

    /// Reads up to `len` bytes at `pos` from the log of generation `gen`.
    pub fn read_at(&self, gen: u64, pos: u64, len: u64) -> (bytes: Option<&[u8]>)
        requires
            self.wf(),
        ensures
            match bytes {
                Some(bytes) => has_gen(self@, gen) && bytes@ == clip(data_of(self@, gen), pos, len),
                None => !has_gen(self@, gen),
            },
    {
        match self.find(gen) {
            Some(i) => {
                let data = self.files[i].data.as_slice();
                let size = data.len();
                let from: usize = if pos <= size as u64 {
                    pos as usize
                } else {
                    size
                };
                let to: usize = if len <= size as u64 - from as u64 {
                    from + len as usize
                } else {
                    size
                };
                Some(slice_subrange(data, from, to))
            },
            None => None,
        }
    }

    /// Creates the log of generation `gen`, empty, unless there is one
    /// already; tells how many bytes the log holds.
    pub fn create_log(&mut self, gen: u64) -> (size: usize)
        requires
            old(self).wf(),
        ensures
            final(self).wf(),
            has_gen(final(self)@, gen),
            size == data_of(final(self)@, gen).len(),
            has_gen(old(self)@, gen) ==> final(self)@ == old(self)@,
            !has_gen(old(self)@, gen) ==> size == 0,
            final(self)@ == apply_change(old(self)@, Change::Create { gen }),
            final(self).journaling() == old(self).journaling(),
            final(self).base() == old(self).base(),
            final(self).pending() == (if old(self).journaling() {
                old(self).pending().push(Change::Create { gen })
            } else {
                old(self).pending()
            }),
            (forall|j: int| 0 <= j < old(self)@.len() ==> (#[trigger] old(self)@[j]).0 < gen)
                ==> final(self)@ == old(self)@.push((gen, Seq::<u8>::empty())),
    {
        let mut i: usize = 0;
        while i < self.files.len() && self.files[i].gen < gen
            invariant
                self.wf(),
                *self == *old(self),
                i <= self.files.len(),
                forall|j: int| 0 <= j < i ==> (#[trigger] self@[j]).0 < gen,
            decreases self.files.len() - i,
        {
            i = i + 1;
        }
        if i < self.files.len() && self.files[i].gen == gen {
            proof {
                lemma_gen_at(self@, i as int);
            }
            let size = self.files[i].data.len();
            self.note(FileOp::Create { gen }, Ghost(self@));
            return size;
        }
        proof {
            assert(i < self@.len() ==> self@[i as int].0 > gen);
            assert(!has_gen(self@, gen)) by {
                if has_gen(self@, gen) {
                    let j = gen_at(self@, gen);
                    if j >= i {
                        assert(self@[i as int].0 <= self@[j].0);
                    }
                }
            }
        }
        proof {
            assert forall|j: int| i <= j < self@.len() implies (#[trigger] self@[j]).0 >= gen by {
                if j > i {
                    assert(self@[i as int].0 < self@[j].0);
                }
            }
            lemma_insert_pos(self@, gen, i as int);
        }
        self.files.insert(i, LogFile { gen, data: Vec::new() });
        proof {
            assert(self@ =~= old(self)@.insert(i as int, (gen, Seq::<u8>::empty())));
        }
        self.note(FileOp::Create { gen }, Ghost(old(self)@));
        proof {
            assert(final(self)@ =~= old(self)@.insert(i as int, (gen, Seq::<u8>::empty())));
            if forall|j: int| 0 <= j < old(self)@.len() ==> (#[trigger] old(self)@[j]).0 < gen {
                if i < old(self)@.len() {
                    assert(old(self)@[i as int].0 < gen);
                }
                assert(final(self)@ =~= old(self)@.push((gen, Seq::<u8>::empty())));
            }
            assert(ascending(self@)) by {
                assert forall|a: int, b: int| 0 <= a < b < self@.len() implies (#[trigger] self@[a]).0
                    < (#[trigger] self@[b]).0 by {
                    let oa = if a < i { a } else { a - 1 };
                    let ob = if b < i { b } else { b - 1 };
                    if a != i && b != i {
                        assert(old(self)@[oa].0 < old(self)@[ob].0);
                    } else if a == i {
                        assert(old(self)@[ob].0 >= old(self)@[i as int].0 || ob == i);
                    } else {
                        assert(old(self)@[oa].0 < gen);
                    }
                }
            }
            lemma_gen_at(self@, i as int);
        }
        0
    }

    /// Appends `bytes` to the log of generation `gen`. Nothing is written if
    /// the directory holds no such log.
    pub fn append(&mut self, gen: u64, bytes: &[u8]) -> (written: bool)
        requires
            old(self).wf(),
        ensures
            final(self).wf(),
            written == has_gen(old(self)@, gen),
            written ==> final(self)@ == old(self)@.update(
                gen_at(old(self)@, gen),
                (gen, data_of(old(self)@, gen) + bytes@),
            ),
            !written ==> final(self)@ == old(self)@,
            final(self).journaling() == old(self).journaling(),
            final(self).base() == old(self).base(),
            final(self).pending() == (if old(self).journaling() && written {
                old(self).pending().push(Change::Append { gen, bytes: bytes@ })
            } else {
                old(self).pending()
            }),
    {
        match self.find(gen) {
            Some(i) => {
                self.files[i].data.extend_from_slice(bytes);
                if self.journaling {
                    proof {
                        assert(self.files@[i as int].data@ =~= old(self).files@[i as int].data@
                            + bytes@);
                        assert(self@ =~= old(self)@.update(
                            i as int,
                            (gen, data_of(old(self)@, gen) + bytes@),
                        ));
                    }
                    self.note(FileOp::Append { gen, bytes: slice_to_vec(bytes) }, Ghost(old(self)@));
                }
                proof {
                    assert(self.files@[i as int].data@ =~= old(self).files@[i as int].data@
                        + bytes@);
                    assert(final(self)@ =~= old(self)@.update(
                        i as int,
                        (gen, data_of(old(self)@, gen) + bytes@),
                    ));
                }
                true
            },
            None => false,
        }
    }

    /// Deletes the log of generation `gen`, if there is one.
    pub fn delete_log(&mut self, gen: u64) -> (deleted: bool)
        requires
            old(self).wf(),
        ensures
            final(self).wf(),
            deleted == has_gen(old(self)@, gen),
            deleted ==> final(self)@ == old(self)@.remove(gen_at(old(self)@, gen)),
            !deleted ==> final(self)@ == old(self)@,
            final(self).journaling() == old(self).journaling(),
            final(self).base() == old(self).base(),
            final(self).pending() == (if old(self).journaling() && deleted {
                old(self).pending().push(Change::Delete { gen })
            } else {
                old(self).pending()
            }),
    {
        match self.find(gen) {
            Some(i) => {
                self.files.remove(i);
                proof {
                    assert(self@ =~= old(self)@.remove(i as int));
                }
                self.note(FileOp::Delete { gen }, Ghost(old(self)@));
                true
            },
            None => false,
        }
    }

    /// Deletes every log of a generation below `gen`; tells how many there
    /// were.
    pub fn delete_below(&mut self, gen: u64) -> (deleted: usize)
        requires
            old(self).wf(),
        ensures
            final(self).wf(),
            deleted <= old(self)@.len(),
            forall|i: int| 0 <= i < deleted ==> (#[trigger] old(self)@[i]).0 < gen,
            forall|i: int| deleted <= i < old(self)@.len() ==> (#[trigger] old(self)@[i]).0 >= gen,
            final(self)@ == old(self)@.subrange(deleted as int, old(self)@.len() as int),
            final(self).journaling() == old(self).journaling(),
            final(self).base() == old(self).base(),
            !old(self).journaling() ==> final(self).pending() == old(self).pending(),
            old(self).journaling() ==> final(self).pending().len() == old(self).pending().len()
                + deleted,
    {
        let mut deleted: usize = 0;
        assert(self@.len() == self.files.len());
        while self.files.len() > 0 && self.files[0].gen < gen
            invariant
                self.wf(),
                self.journaling == old(self).journaling,
                self.base == old(self).base,
                !self.journaling ==> self.pending() == old(self).pending(),
                self.journaling ==> self.pending().len() == old(self).pending().len() + deleted,
                old(self).wf(),
                deleted + self.files.len() == old(self)@.len(),
                old(self)@.len() <= usize::MAX,
                forall|i: int| 0 <= i < deleted ==> (#[trigger] old(self)@[i]).0 < gen,
                self@ == old(self)@.subrange(deleted as int, old(self)@.len() as int),
            decreases self.files.len(),
        {
            let ghost before = self@;
            let first = self.files[0].gen;
            proof {
                lemma_gen_at(before, 0);
            }
            self.files.remove(0);
            proof {
                assert(self@ =~= before.remove(0));
            }
            self.note(FileOp::Delete { gen: first }, Ghost(before));
            proof {
                assert(self@ =~= old(self)@.subrange(deleted + 1, old(self)@.len() as int));
                assert(old(self)@[deleted as int] == before[0]);
            }
            deleted = deleted + 1;
        }
        proof {
            assert forall|i: int| deleted <= i < old(self)@.len() implies (#[trigger] old(self)@[i]).0 >= gen by {
                assert(self@[0] == old(self)@[deleted as int]);
                if i > deleted {
                    assert(old(self)@[deleted as int].0 < old(self)@[i].0);
                }
            }
        }
        deleted
    }

    /// No log is longer than a position can tell.
    pub proof fn lemma_sizes_fit(&self)
        ensures
            sizes_fit(self@),
    {
        assert forall|i: int| 0 <= i < self@.len() implies (#[trigger] self@[i]).1.len()
            <= u64::MAX by {
            assert(self.files@[i].data.len() == self.files@[i].data@.len());
        }
    }
}

} // verus!
