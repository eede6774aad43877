//! The index: where the latest record of every live key lies.

use crossbeam_skiplist::SkipMap;
use vstd::prelude::*;
use vstd::utf8::encode_utf8;

verus! {

/// Where a record lies: the generation of its log, the offset of its first
/// byte and the number of its bytes.
#[derive(Clone, Copy, Debug, PartialEq, Eq, Structural)]
pub struct CommandPos {
    pub gen: u64,
    pub pos: u64,
    pub len: u64,
}

impl CommandPos {
    /// The position of the record that fills the bytes from `start` up to
    /// `end` of generation `gen`.
    pub fn new(gen: u64, start: u64, end: u64) -> (at: CommandPos)
        requires
            start <= end,
        ensures
            at == (CommandPos { gen, pos: start, len: (end - start) as u64 }),
    {
        CommandPos { gen, pos: start, len: end - start }
    }

    /// The position that three numbers of the index stand for.
    pub open spec fn of(t: (u64, u64, u64)) -> CommandPos {
        CommandPos { gen: t.0, pos: t.1, len: t.2 }
    }
}

/// Whether `a` comes before `b` where bytes are compared one by one: at the
/// first place where they differ `a` has the lower byte, or `a` ends there
/// and `b` does not.
pub open spec fn bytes_lt(a: Seq<u8>, b: Seq<u8>) -> bool
    decreases a.len(),
{
    if b.len() == 0 {
        false
    } else if a.len() == 0 {
        true
    } else if a[0] != b[0] {
        a[0] < b[0]
    } else {
        bytes_lt(a.drop_first(), b.drop_first())
    }
}

/// Whether the key `a` comes before the key `b`: strings are ordered by
/// the bytes of their UTF-8.
pub open spec fn key_lt(a: Seq<char>, b: Seq<char>) -> bool {
    bytes_lt(encode_utf8(a), encode_utf8(b))
}

/// Whether the keys ascend.
pub open spec fn keys_ascend(keys: Seq<Seq<char>>) -> bool {
    forall|i: int, j: int| 0 <= i < j < keys.len() ==> key_lt(#[trigger] keys[i], #[trigger] keys[j])
}

/// The keys as sequences of characters.
pub open spec fn key_views(keys: Seq<String>) -> Seq<Seq<char>> {
    Seq::new(keys.len(), |i: int| keys[i]@)
}

/// `crossbeam_skiplist::SkipMap`, of which nothing is known but what the
/// functions below say.
#[verifier::external_type_specification]
#[verifier::external_body]
#[verifier::reject_recursive_types(K)]
#[verifier::reject_recursive_types(V)]
pub struct ExSkipMap<K, V>(SkipMap<K, V>);

/// What a skip map holds: for each key, by its characters, the three numbers
/// of a position.
pub uninterp spec fn skip_map_entries(m: SkipMap<String, (u64, u64, u64)>) -> Map<
    Seq<char>,
    (u64, u64, u64),
>;

/// `SkipMap::new`: a map that holds nothing.
#[verifier::external_body]
fn skip_map_new() -> (m: SkipMap<String, (u64, u64, u64)>)
    ensures
        skip_map_entries(m).dom() == Set::<Seq<char>>::empty(),
{
    SkipMap::new()
}

/// `SkipMap::insert`: binds the key to the value, in place of what the key
/// was bound to before.
#[verifier::external_body]
fn skip_map_insert(m: &mut SkipMap<String, (u64, u64, u64)>, key: String, value: (u64, u64, u64))
    ensures
        skip_map_entries(*final(m)) == skip_map_entries(*old(m)).insert(key@, value),
{
    m.insert(key, value);
}

/// `SkipMap::get`: the value that the key is bound to, if it is bound.
#[verifier::external_body]
fn skip_map_get(m: &SkipMap<String, (u64, u64, u64)>, key: &str) -> (value: Option<(u64, u64, u64)>)
    ensures
        value is Some == skip_map_entries(*m).dom().contains(key@),
        value is Some ==> value->0 == skip_map_entries(*m)[key@],
{
    m.get(key).map(|entry| *entry.value())
}

/// `SkipMap::remove`: unbinds the key and returns what it was bound to.
#[verifier::external_body]
fn skip_map_remove(m: &mut SkipMap<String, (u64, u64, u64)>, key: &str) -> (value: Option<
    (u64, u64, u64),
>)
    ensures
        skip_map_entries(*final(m)) == skip_map_entries(*old(m)).remove(key@),
        value is Some == skip_map_entries(*old(m)).dom().contains(key@),
        value is Some ==> value->0 == skip_map_entries(*old(m))[key@],
{
    m.remove(key).map(|entry| *entry.value())
}

/// `SkipMap::iter`: every key of the map, once, in ascending order.
#[verifier::external_body]
fn skip_map_keys(m: &SkipMap<String, (u64, u64, u64)>) -> (keys: Vec<String>)
    ensures
        forall|i: int, j: int| 0 <= i < j < keys@.len() ==> key_lt((#[trigger] keys@[i])@, (#[trigger] keys@[j])@),
        forall|i: int| 0 <= i < keys@.len() ==> skip_map_entries(*m).dom().contains(#[trigger] keys@[i]@),
        forall|i: int, j: int| 0 <= i < j < keys@.len() ==> (#[trigger] keys@[i])@ != (#[trigger] keys@[j])@,
        forall|k: Seq<char>| skip_map_entries(*m).dom().contains(k) ==> exists|i: int| 0 <= i < keys@.len() && #[trigger] keys@[i]@ == k,
{
    m.iter().map(|entry| entry.key().clone()).collect()
}

/// The index of a store: a map from each live key to the position of its
/// latest record.
#[derive(Debug)]
pub struct Index {
    map: SkipMap<String, (u64, u64, u64)>,
}

impl View for Index {
    type V = Map<Seq<char>, CommandPos>;

    closed spec fn view(&self) -> Map<Seq<char>, CommandPos> {
        Map::new(
            |k: Seq<char>| skip_map_entries(self.map).dom().contains(k),
            |k: Seq<char>| CommandPos::of(skip_map_entries(self.map)[k]),
        )
    }
}

impl Index {
    /// An index without keys.
    pub fn new() -> (index: Index)
        ensures
            index@ == Map::<Seq<char>, CommandPos>::empty(),
    {
        let index = Index { map: skip_map_new() };
        assert(index@ =~= Map::<Seq<char>, CommandPos>::empty());
        index
    }

    /// Binds `key` to `at`, in place of what it was bound to.
    pub fn insert(&mut self, key: String, at: CommandPos)
        ensures
            final(self)@ == old(self)@.insert(key@, at),
    {
        skip_map_insert(&mut self.map, key, (at.gen, at.pos, at.len));
        assert(final(self)@ =~= old(self)@.insert(key@, at));
    }

    /// The position that `key` is bound to.
    pub fn get(&self, key: &str) -> (at: Option<CommandPos>)
        ensures
            at == (if self@.contains_key(key@) {
                Some(self@[key@])
            } else {
                None
            }),
    {
        match skip_map_get(&self.map, key) {
            Some((gen, pos, len)) => Some(CommandPos { gen, pos, len }),
            None => None,
        }
    }

    /// Tells whether `key` is bound.
    pub fn contains_key(&self, key: &str) -> (bound: bool)
        ensures
            bound == self@.contains_key(key@),
    {
        skip_map_get(&self.map, key).is_some()
    }

    /// Unbinds `key` and returns the position that it was bound to.
    pub fn remove(&mut self, key: &str) -> (at: Option<CommandPos>)
        ensures
            final(self)@ == old(self)@.remove(key@),
            at == (if old(self)@.contains_key(key@) {
                Some(old(self)@[key@])
            } else {
                None
            }),
    {
        let removed = skip_map_remove(&mut self.map, key);
        assert(final(self)@ =~= old(self)@.remove(key@));
        match removed {
            Some((gen, pos, len)) => Some(CommandPos { gen, pos, len }),
            None => None,
        }
    }

    /// The keys of the index, each once, in ascending order.
    pub fn keys(&self) -> (keys: Vec<String>)
        ensures
            is_listing(key_views(keys@), self@.dom()),
            keys_ascend(key_views(keys@)),
    {
        let keys = skip_map_keys(&self.map);
        proof {
            let views = key_views(keys@);
            assert forall|k: Seq<char>| self@.dom().contains(k) implies exists|i: int|
                0 <= i < views.len() && #[trigger] views[i] == k by {
                let i = choose|i: int| 0 <= i < keys@.len() && #[trigger] keys@[i]@ == k;
                assert(views[i] == k);
            }
        }
        keys
    }
}

/// Whether `keys` holds every member of `dom`, once, and nothing else.
pub open spec fn is_listing(keys: Seq<Seq<char>>, dom: Set<Seq<char>>) -> bool {
    &&& forall|i: int| 0 <= i < keys.len() ==> dom.contains(#[trigger] keys[i])
    &&& forall|i: int, j: int| 0 <= i < j < keys.len() ==> #[trigger] keys[i] != #[trigger] keys[j]
    &&& forall|k: Seq<char>|
        dom.contains(k) ==> exists|i: int| 0 <= i < keys.len() && #[trigger] keys[i] == k
}

} // verus!
