use crate::available::AvailableSounds;
use crate::decimal::{append_decimal, decimal_text, lemma_decimal_round_trip, parse_id, parsed_id};
use crate::playback::reversed;
use std::sync::Arc;
use vstd::hash_map::StringHashMap;
use vstd::prelude::*;
use vstd::string::StringExecFns;

verus! {

/// What every sound file's name starts with.
pub open spec fn name_prefix() -> Seq<char> {
    seq!['k', 'e', 'y', '_', 's', 'o', 'u', 'n', 'd', '_']
}

/// What every sound file's name ends with.
pub open spec fn name_suffix() -> Seq<char> {
    seq!['.', 'm', 'p', '3']
}

/// The name of the file that holds the sound `id`.
pub open spec fn file_name_text(id: i32) -> Seq<char> {
    name_prefix() + decimal_text(id as int) + name_suffix()
}

/// The path under `dir` of the file that holds the sound `id`.
pub open spec fn sound_path_text(dir: Seq<char>, id: i32) -> Seq<char> {
    dir + seq!['/'] + file_name_text(id)
}

/// The sound id in a file name: the number between prefix and suffix, where
/// the name has both and a number stands between them.
pub open spec fn sound_id_of_name(name: Seq<char>) -> Option<i32> {
    if name.len() >= name_prefix().len() + name_suffix().len() && name.take(
        name_prefix().len() as int,
    ) == name_prefix() && name.skip(name.len() - name_suffix().len()) == name_suffix() {
        parsed_id(name.subrange(name_prefix().len() as int, name.len() - name_suffix().len()))
    } else {
        None
    }
}

/// The id that a sound file is named by is read back from its name.
pub proof fn lemma_file_name_round_trip(id: i32)
    ensures
        sound_id_of_name(file_name_text(id)) == Some(id),
{
    let name = file_name_text(id);
    let number = decimal_text(id as int);
    lemma_decimal_round_trip(id);
    assert(name.take(name_prefix().len() as int) =~= name_prefix());
    assert(name.skip(name.len() - name_suffix().len()) =~= name_suffix());
    assert(name.subrange(name_prefix().len() as int, name.len() - name_suffix().len())
        =~= number);
}

/// Two sounds have the same path under a directory only if they are the same
/// sound.
pub proof fn lemma_sound_path_injective(dir: Seq<char>, a: i32, b: i32)
    requires
        sound_path_text(dir, a) == sound_path_text(dir, b),
    ensures
        a == b,
{
    let head = dir + seq!['/'];
    assert(sound_path_text(dir, a).skip(head.len() as int) =~= file_name_text(a));
    assert(sound_path_text(dir, b).skip(head.len() as int) =~= file_name_text(b));
    lemma_file_name_round_trip(a);
    lemma_file_name_round_trip(b);
}

/// Whether `text` starts with `prefix`.
pub fn starts_with(text: &str, prefix: &str) -> (r: bool)
    ensures
        r == (text@.len() >= prefix@.len() && text@.take(prefix@.len() as int) == prefix@),
{
    let n = text.unicode_len();
    let m = prefix.unicode_len();
    if n < m {
        return false;
    }
    let mut i: usize = 0;
    while i < m
        invariant
            i <= m,
            m <= n,
            n == text@.len(),
            m == prefix@.len(),
            forall|k: int| 0 <= k < i ==> text@[k] == prefix@[k],
        decreases m - i,
    {
        if text.get_char(i) != prefix.get_char(i) {
            assert(text@.take(m as int)[i as int] != prefix@[i as int]);
            return false;
        }
        i += 1;
    }
    assert(text@.take(m as int) =~= prefix@);
    true
}

/// Whether `text` ends with `suffix`.
pub fn ends_with(text: &str, suffix: &str) -> (r: bool)
    ensures
        r == (text@.len() >= suffix@.len() && text@.skip(text@.len() - suffix@.len())
            == suffix@),
{
    let n = text.unicode_len();
    let m = suffix.unicode_len();
    if n < m {
        return false;
    }
    let mut i: usize = 0;
    while i < m
        invariant
            i <= m,
            m <= n,
            n == text@.len(),
            m == suffix@.len(),
            forall|k: int| 0 <= k < i ==> text@[n - m + k] == suffix@[k],
        decreases m - i,
    {
        if text.get_char(n - m + i) != suffix.get_char(i) {
            assert(text@.skip(n - m)[i as int] != suffix@[i as int]);
            return false;
        }
        i += 1;
    }
    assert(text@.skip(n - m) =~= suffix@);
    true
}

/// The sound id that a directory entry is named by, if it is a sound file.
pub fn sound_id_of_file_name(name: &str) -> (r: Option<i32>)
    ensures
        r == sound_id_of_name(name@),
{
    proof {
        reveal_strlit("key_sound_");
        reveal_strlit(".mp3");
        assert("key_sound_"@ =~= name_prefix());
        assert(".mp3"@ =~= name_suffix());
    }
    let n = name.unicode_len();
    if n < 14 {
        return None;
    }
    if !starts_with(name, "key_sound_") {
        return None;
    }
    if !ends_with(name, ".mp3") {
        return None;
    }
    parse_id(name.substring_char(10, n - 4))
}

/// The path under `dir` of the file that holds the sound `id`.
pub fn sound_path(dir: &str, id: i32) -> (r: String)
    ensures
        r@ == sound_path_text(dir@, id),
{
    let mut r = String::from_str(dir);
    r.append("/");
    r.append("key_sound_");
    append_decimal(&mut r, id);
    r.append(".mp3");
    proof {
        reveal_strlit("/");
        reveal_strlit("key_sound_");
        reveal_strlit(".mp3");
        assert("/"@ =~= seq!['/']);
        assert("key_sound_"@ =~= name_prefix());
        assert(".mp3"@ =~= name_suffix());
        assert(r@ =~= sound_path_text(dir@, id));
    }
    r
}

/// The ids of the sound files among the names of a folder's entries. Names
/// of another shape are passed over.
pub fn get_key_numbers_from_folder(entries: &Vec<String>) -> (r: AvailableSounds)
    ensures
        r.wf(),
        forall|id: i32|
            r@.contains(id) <==> exists|i: int|
                0 <= i < entries@.len() && sound_id_of_name(#[trigger] entries@[i]@) == Some(id),
{
    let mut found = AvailableSounds::new();
    let mut i: usize = 0;
    while i < entries.len()
        invariant
            i <= entries@.len(),
            found.wf(),
            forall|id: i32|
                found@.contains(id) <==> exists|j: int|
                    0 <= j < i && sound_id_of_name(#[trigger] entries@[j]@) == Some(id),
        decreases entries@.len() - i,
    {
        let ghost before = found@;
        match sound_id_of_file_name(entries[i].as_str()) {
            Some(number) => {
                found.insert(number);
            },
            None => {},
        }
        proof {
            let here = sound_id_of_name(entries@[i as int]@);
            assert forall|id: i32|
                found@.contains(id) <==> exists|j: int|
                    0 <= j < i + 1 && sound_id_of_name(#[trigger] entries@[j]@) == Some(id) by {
                if found@.contains(id) {
                    if before.contains(id) {
                        let j = choose|j: int|
                            0 <= j < i && sound_id_of_name(#[trigger] entries@[j]@) == Some(id);
                        assert(0 <= j < i + 1 && sound_id_of_name(entries@[j]@) == Some(id));
                    } else {
                        assert(here == Some(id));
                    }
                }
                if exists|j: int|
                    0 <= j < i + 1 && sound_id_of_name(#[trigger] entries@[j]@) == Some(id) {
                    let j = choose|j: int|
                        0 <= j < i + 1 && sound_id_of_name(#[trigger] entries@[j]@) == Some(id);
                    if j < i {
                        assert(before.contains(id));
                    }
                }
            }
        }
        i += 1;
    }
    found
}

/// Why the engine cannot start on a folder.
#[derive(Debug, Clone, Copy, PartialEq, Eq)]
pub enum StartupError {
    /// No entry of the folder is a sound file.
    NoSounds,
}

/// The available sounds of a folder for an engine to start with: those that
/// its entries name, and an error where they name none.
pub fn startup_sounds(entries: &Vec<String>) -> (r: Result<AvailableSounds, StartupError>)
    ensures
        match r {
            Ok(available) => available.wf() && available@ != Set::<i32>::empty() && forall|id: i32|
                available@.contains(id) <==> exists|i: int|
                    0 <= i < entries@.len() && sound_id_of_name(#[trigger] entries@[i]@) == Some(
                        id,
                    ),
            Err(e) => e == StartupError::NoSounds && forall|i: int|
                0 <= i < entries@.len() ==> sound_id_of_name(#[trigger] entries@[i]@) is None,
        },
{
    let available = get_key_numbers_from_folder(entries);
    if available.is_empty() {
        proof {
            assert forall|i: int| 0 <= i < entries@.len() implies sound_id_of_name(
                #[trigger] entries@[i]@,
            ) is None by {
                if sound_id_of_name(entries@[i]@) is Some {
                    assert(available@.contains(sound_id_of_name(entries@[i]@).unwrap()));
                }
            }
        }
        Err(StartupError::NoSounds)
    } else {
        Ok(available)
    }
}

/// The clips, each under the path of its file, held in memory once and
/// shared with whoever plays them.
pub struct SoundCache {
    cache: StringHashMap<Arc<Vec<u8>>>,
}

impl View for SoundCache {
    type V = Map<Seq<char>, Seq<u8>>;

    closed spec fn view(&self) -> Map<Seq<char>, Seq<u8>> {
        Map::new(|path: Seq<char>| self.cache@.contains_key(path), |path: Seq<char>| self.cache@[path]@)
    }
}

impl SoundCache {
    pub fn new() -> (r: SoundCache)
        ensures
            r@ == Map::<Seq<char>, Seq<u8>>::empty(),
    {
        let r = SoundCache { cache: StringHashMap::new() };
        assert(r@ =~= Map::<Seq<char>, Seq<u8>>::empty());
        r
    }

    /// Puts the bytes of the file `filename` into the cache, in place of what
    /// was there under that name.
    pub fn load(&mut self, filename: &str, buffer: Vec<u8>)
        ensures
            final(self)@ == old(self)@.insert(filename@, buffer@),
    {
        let shared = Arc::new(buffer);
        self.cache.insert(String::from_str(filename), shared);
        assert(self@ =~= old(self)@.insert(filename@, buffer@));
    }

    /// The clip cached under `filename`, if there is one.
    pub fn get(&self, filename: &str) -> (r: Option<&Arc<Vec<u8>>>)
        ensures
            match r {
                Some(buffer) => self@.contains_key(filename@) && buffer@ == self@[filename@],
                None => !self@.contains_key(filename@),
            },
    {
        self.cache.get(filename)
    }

    /// The number of clips in the cache.
    pub fn len(&self) -> (r: usize)
        ensures
            r == self@.dom().len(),
    {
        assert(self@.dom() =~= self.cache@.dom());
        self.cache.len()
    }
}

/// A sound file as it was read: the id in its name and its bytes.
pub open spec fn file_views(files: Seq<(i32, Vec<u8>)>) -> Seq<(i32, Seq<u8>)> {
    files.map_values(|f: (i32, Vec<u8>)| (f.0, f.1@))
}

/// The cache that the files under `dir` make: each file's bytes under its
/// path, a later file in place of an earlier one of the same id.
pub open spec fn cached(dir: Seq<char>, files: Seq<(i32, Seq<u8>)>) -> Map<Seq<char>, Seq<u8>>
    decreases files.len(),
{
    if files.len() == 0 {
        Map::empty()
    } else {
        cached(dir, files.drop_last()).insert(
            sound_path_text(dir, files.last().0),
            files.last().1,
        )
    }
}

/// Builds the cache of the sound files of the folder `path`, given each
/// file's id and bytes.
pub fn cache_sounds(path: &str, files: Vec<(i32, Vec<u8>)>) -> (r: SoundCache)
    ensures
        r@ == cached(path@, file_views(files@)),
{
    let ghost all = file_views(files@);
    let total: usize = files.len();
    let mut sound_cache = SoundCache::new();
    let mut stack = reversed(files);
    let mut i: usize = 0;
    proof {
        assert(all.take(0) =~= Seq::<(i32, Seq<u8>)>::empty());
    }
    while stack.len() > 0
        invariant
            all.len() == total,
            i + stack@.len() == all.len(),
            file_views(stack@) == all.reverse().take(stack@.len() as int),
            sound_cache@ == cached(path@, all.take(i as int)),
        decreases stack@.len(),
    {
        let ghost n = stack@.len();
        let ghost top = file_views(stack@).last();
        let (number, buffer) = stack.pop().unwrap();
        proof {
            assert(file_views(stack@) =~= all.reverse().take(n - 1));
            assert((number, buffer@) == top);
            assert(top == all[i as int]);
            assert(all.take(i + 1).drop_last() =~= all.take(i as int));
        }
        let file_path = sound_path(path, number);
        sound_cache.load(file_path.as_str(), buffer);
        i += 1;
    }
    assert(all.take(i as int) =~= all);
    sound_cache
}

/// The keys of the cache are the paths of the files, and no others.
pub proof fn lemma_cached_paths(dir: Seq<char>, files: Seq<(i32, Seq<u8>)>)
    ensures
        forall|path: Seq<char>|
            cached(dir, files).contains_key(path) <==> exists|i: int|
                0 <= i < files.len() && sound_path_text(dir, (#[trigger] files[i]).0) == path,
    decreases files.len(),
{
    if files.len() > 0 {
        let front = files.drop_last();
        let last_path = sound_path_text(dir, files.last().0);
        lemma_cached_paths(dir, front);
        assert(cached(dir, files) == cached(dir, front).insert(last_path, files.last().1));
        assert forall|path: Seq<char>|
            cached(dir, files).contains_key(path) <==> exists|i: int|
                0 <= i < files.len() && sound_path_text(dir, (#[trigger] files[i]).0) == path by {
            if cached(dir, files).contains_key(path) {
                if path == last_path {
                    let i = files.len() - 1;
                    assert(0 <= i < files.len() && sound_path_text(dir, files[i].0) == path);
                } else {
                    assert(cached(dir, front).contains_key(path));
                    let i = choose|i: int|
                        0 <= i < front.len() && sound_path_text(dir, (#[trigger] front[i]).0)
                            == path;
                    assert(front[i] == files[i]);
                    assert(0 <= i < files.len() && sound_path_text(dir, files[i].0) == path);
                }
            }
            if exists|i: int|
                0 <= i < files.len() && sound_path_text(dir, (#[trigger] files[i]).0) == path {
                let i = choose|i: int|
                    0 <= i < files.len() && sound_path_text(dir, (#[trigger] files[i]).0) == path;
                if i < front.len() {
                    assert(front[i] == files[i]);
                    assert(0 <= i < front.len() && sound_path_text(dir, front[i].0) == path);
                    assert(cached(dir, front).contains_key(path));
                } else {
                    assert(path == last_path);
                }
            }
        }
    }
}

/// Where every id comes once, the cache holds under each file's path the
/// bytes of that file, in full: as many as the file has, and so at least one
/// wherever the file is not empty.
pub proof fn lemma_cache_is_complete(dir: Seq<char>, files: Seq<(i32, Seq<u8>)>, at: int)
    requires
        0 <= at < files.len(),
        forall|i: int, j: int| 0 <= i < j < files.len() ==> files[i].0 != files[j].0,
    ensures
        cached(dir, files).contains_key(sound_path_text(dir, files[at].0)),
        cached(dir, files)[sound_path_text(dir, files[at].0)] == files[at].1,
        cached(dir, files)[sound_path_text(dir, files[at].0)].len() == files[at].1.len(),
        files[at].1.len() > 0 ==> cached(dir, files)[sound_path_text(dir, files[at].0)].len() > 0,
    decreases files.len(),
{
    let front = files.drop_last();
    if at < front.len() {
        lemma_cache_is_complete(dir, front, at);
        if sound_path_text(dir, files.last().0) == sound_path_text(dir, files[at].0) {
            lemma_sound_path_injective(dir, files.last().0, files[at].0);
            assert(files[at].0 != files[files.len() - 1].0);
        }
    }
}

} // verus!
