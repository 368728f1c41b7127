//! The files of the cache directory: what they are called, which of them are of no use,
//! and which entries have to go when the cache is too large.

use vstd::prelude::*;

use crate::cache;
use crate::cache::{complete, CacheEntry, CacheEntryView};
use crate::limit;
use crate::text;
use crate::text::{chars_of, same, text_between, to_decimal};

verus! {

/// The version of the metadata format.
pub const CACHE_VERSION: u8 = 1;

/// The name of an entry's body file.
pub open spec fn body_file(key: Seq<char>) -> Seq<char> {
    key + ".body"@
}

/// The name of an entry's metadata file.
pub open spec fn meta_file(key: Seq<char>) -> Seq<char> {
    key + ".json"@
}

/// The name of a file in which a body or metadata is written before it gets its final
/// name: hidden, with the process and a running number to set it apart.
pub open spec fn temporary_file(key: Seq<char>, mark: Seq<char>, process: u32, number: u64) -> Seq<
    char,
> {
    "."@ + key + mark + text::decimal(process as nat) + "-"@ + text::decimal(number as nat)
}

/// The name of an entry's body file.
pub fn body_name(key: &str) -> (r: String)
    ensures
        r@ == body_file(key@),
{
    key.to_owned().concat(".body")
}

/// The name of an entry's metadata file.
pub fn meta_name(key: &str) -> (r: String)
    ensures
        r@ == meta_file(key@),
{
    key.to_owned().concat(".json")
}

fn temporary_name(key: &str, mark: &str, process: u32, number: u64) -> (r: String)
    ensures
        r@ == temporary_file(key@, mark@, process, number),
{
    let mut name = ".".to_owned();
    name.append(key);
    name.append(mark);
    name.append(&to_decimal(process as u64));
    name.append("-");
    name.append(&to_decimal(number));
    name
}

/// The name of the file in which a body is written before it gets its final name.
pub fn temporary_body_name(key: &str, process: u32, number: u64) -> (r: String)
    ensures
        r@ == temporary_file(key@, ".body.tmp-"@, process, number),
{
    temporary_name(key, ".body.tmp-", process, number)
}

/// The name of the file in which metadata is written before it gets its final name.
pub fn temporary_meta_name(key: &str, process: u32, number: u64) -> (r: String)
    ensures
        r@ == temporary_file(key@, ".meta.tmp-"@, process, number),
{
    temporary_name(key, ".meta.tmp-", process, number)
}

/// What a file of the cache directory is, by its name.
pub enum FileKind {
    /// The metadata of the entry with this key.
    Metadata(String),
    /// The body of the entry with this key.
    Body(String),
    /// A file that was being written.
    Temporary,
    /// None of the cache's files.
    Other,
}

/// What a file of the cache directory is.
pub enum KindView {
    Metadata(Seq<char>),
    Body(Seq<char>),
    Temporary,
    Other,
}

impl View for FileKind {
    type V = KindView;

    open spec fn view(&self) -> KindView {
        match self {
            FileKind::Metadata(key) => KindView::Metadata(key@),
            FileKind::Body(key) => KindView::Body(key@),
            FileKind::Temporary => KindView::Temporary,
            FileKind::Other => KindView::Other,
        }
    }
}

/// Whether a text has another one in it.
pub open spec fn holds(s: Seq<char>, part: Seq<char>) -> bool {
    exists|i: int|
        0 <= i <= s.len() - part.len() && #[trigger] s.subrange(i, i + part.len()) == part
}

/// Whether a file of this name was being written: it is hidden and marked as a temporary
/// body or as temporary metadata.
pub open spec fn is_temporary(name: Seq<char>) -> bool {
    &&& name.len() > 0
    &&& name.first() == '.'
    &&& holds(name, ".body.tmp-"@) || holds(name, ".meta.tmp-"@)
}

/// What stands before a suffix, where something does.
pub open spec fn stem(name: Seq<char>, suffix: Seq<char>) -> Option<Seq<char>> {
    if name.len() > suffix.len() && text::ends(name, suffix) {
        Some(name.take(name.len() - suffix.len()))
    } else {
        None
    }
}

/// What a file of the cache directory is, by its name. What ends as metadata does is
/// metadata, whatever else its name says.
pub open spec fn kind_of(name: Seq<char>) -> KindView {
    if stem(name, ".json"@) is Some {
        KindView::Metadata(stem(name, ".json"@)->0)
    } else if is_temporary(name) {
        KindView::Temporary
    } else if stem(name, ".body"@) is Some {
        KindView::Body(stem(name, ".body"@)->0)
    } else {
        KindView::Other
    }
}

fn find_part(s: &Vec<char>, part: &str) -> (r: bool)
    ensures
        r == holds(s@, part@),
{
    let wanted = chars_of(part);
    let len: usize = s.len();
    if wanted.len() > len {
        return false;
    }
    let last: usize = len - wanted.len();
    let mut i: usize = 0;
    while i <= last
        invariant
            len == s@.len(),
            wanted@ == part@,
            wanted@.len() <= len,
            last == len - wanted@.len(),
            i <= last + 1,
            forall|k: int| 0 <= k < i ==> #[trigger] s@.subrange(k, k + part@.len()) != part@,
        decreases last + 1 - i,
    {
        let mut j: usize = 0;
        while j < wanted.len() && s[i + j] == wanted[j]
            invariant
                len == s@.len(),
                wanted@ == part@,
                wanted@.len() <= len,
                last == len - wanted@.len(),
                i <= last,
                j <= wanted@.len(),
                forall|k: int| 0 <= k < j ==> s@[i + k] == #[trigger] wanted@[k],
            decreases wanted@.len() - j,
        {
            j += 1;
        }
        if j == wanted.len() {
            proof {
                assert(s@.subrange(i as int, i + part@.len()) =~= part@);
            }
            return true;
        }
        proof {
            assert(s@.subrange(i as int, i + part@.len())[j as int] != part@[j as int]);
        }
        i += 1;
    }
    false
}

fn strip_suffix(name: &Vec<char>, suffix: &str) -> (r: Option<String>)
    ensures
        text::text_option(r) == stem(name@, suffix@),
{
    let wanted = chars_of(suffix);
    let len: usize = name.len();
    if len <= wanted.len() {
        return None;
    }
    let from: usize = len - wanted.len();
    let end = text_between(name, from, len);
    proof {
        assert(name@.subrange(from as int, len as int) =~= name@.skip(from as int));
        assert(name@.subrange(0, from as int) =~= name@.take(from as int));
    }
    if same(&end, suffix) {
        Some(text_between(name, 0, from))
    } else {
        None
    }
}

/// What a file of the cache directory is, by its name.
pub fn classify(name: &str) -> (r: FileKind)
    ensures
        r@ == kind_of(name@),
{
    let chars = chars_of(name);
    if let Some(key) = strip_suffix(&chars, ".json") {
        return FileKind::Metadata(key);
    }
    if chars.len() > 0 && chars[0] == '.' && (find_part(&chars, ".body.tmp-") || find_part(
        &chars,
        ".meta.tmp-",
    )) {
        return FileKind::Temporary;
    }
    match strip_suffix(&chars, ".body") {
        Some(key) => FileKind::Body(key),
        None => FileKind::Other,
    }
}

/// A file of the cache directory.
pub struct StoredFile {
    /// Its name.
    pub name: String,
    /// Its length.
    pub len: u64,
    /// The metadata that it holds, where it holds some.
    pub entry: Option<CacheEntry>,
}

/// A file of the cache directory.
pub struct FileView {
    pub name: Seq<char>,
    pub len: u64,
    pub entry: Option<CacheEntryView>,
}

impl View for StoredFile {
    type V = FileView;

    open spec fn view(&self) -> FileView {
        FileView {
            name: self.name@,
            len: self.len,
            entry: match self.entry {
                Some(entry) => Some(entry@),
                None => None,
            },
        }
    }
}

pub open spec fn file_views(files: Seq<StoredFile>) -> Seq<FileView> {
    files.map_values(|f: StoredFile| f@)
}

/// The length of the file of this name, where there is one.
pub open spec fn length_of(files: Seq<FileView>, name: Seq<char>) -> Option<u64>
    decreases files.len(),
{
    if files.len() == 0 {
        None
    } else if files.last().name == name {
        Some(files.last().len)
    } else {
        length_of(files.drop_last(), name)
    }
}

/// Whether a file is the metadata of the entry with this key, and that entry is worth
/// keeping: it is complete and younger than its age limit.
pub open spec fn keeps(files: Seq<FileView>, file: FileView, key: Seq<char>, now: u64) -> bool {
    &&& kind_of(file.name) == KindView::Metadata(key)
    &&& file.entry is Some
    &&& cache::is_complete(file.entry->0, length_of(files, body_file(key)))
    &&& cache::age(file.entry->0, now) < file.entry->0.ttl
}

/// Whether some file is the metadata of the entry with this key, and that entry is worth
/// keeping.
pub open spec fn is_kept(files: Seq<FileView>, key: Seq<char>, now: u64) -> bool {
    exists|i: int| 0 <= i < files.len() && keeps(files, #[trigger] files[i], key, now)
}

/// Whether a file has to go when the cache starts: it was being written, or it is the
/// metadata or the body of an entry that is stale, incomplete or not there.
pub open spec fn is_useless(files: Seq<FileView>, file: FileView, now: u64) -> bool {
    match kind_of(file.name) {
        KindView::Temporary => true,
        KindView::Metadata(key) => !keeps(files, file, key, now),
        KindView::Body(key) => !is_kept(files, key, now),
        KindView::Other => false,
    }
}

/// The names of the useless files among the first `count`.
pub open spec fn useless_names(files: Seq<FileView>, count: nat, now: u64) -> Seq<Seq<char>>
    decreases count,
{
    if count == 0 {
        Seq::empty()
    } else {
        let before = useless_names(files, (count - 1) as nat, now);
        if is_useless(files, files[count - 1], now) {
            before.push(files[count - 1].name)
        } else {
            before
        }
    }
}

fn find_length(files: &Vec<StoredFile>, name: &str) -> (r: Option<u64>)
    ensures
        r == length_of(file_views(files@), name@),
{
    let ghost views = file_views(files@);
    let mut i: usize = files.len();
    proof {
        assert(views.take(files@.len() as int) =~= views);
    }
    while i > 0
        invariant
            i <= files@.len(),
            views == file_views(files@),
            length_of(views.take(i as int), name@) == length_of(views, name@),
        decreases i,
    {
        proof {
            assert(views.take(i as int).last() == files@[i - 1]@);
            assert(views.take(i as int).drop_last() =~= views.take(i - 1));
        }
        if same(&files[i - 1].name, name) {
            return Some(files[i - 1].len);
        }
        i -= 1;
    }
    None
}

/// The key of the entry that a file keeps, if it keeps one.
fn kept_key(files: &Vec<StoredFile>, file: &StoredFile, now: u64) -> (r: Option<String>)
    ensures
        match r {
            Some(key) => keeps(file_views(files@), file@, key@, now),
            None => forall|key: Seq<char>| !#[trigger] keeps(file_views(files@), file@, key, now),
        },
{
    match classify(&file.name) {
        FileKind::Metadata(key) => match &file.entry {
            Some(entry) => {
                let body_len = find_length(files, &body_name(&key));
                if complete(entry, body_len) && now.saturating_sub(entry.created_at) < entry.ttl {
                    Some(key)
                } else {
                    None
                }
            },
            None => None,
        },
        _ => None,
    }
}

fn any_keeps(files: &Vec<StoredFile>, key: &str, now: u64) -> (r: bool)
    ensures
        r == is_kept(file_views(files@), key@, now),
{
    let ghost views = file_views(files@);
    let mut i: usize = 0;
    while i < files.len()
        invariant
            i <= files@.len(),
            views == file_views(files@),
            forall|k: int| 0 <= k < i ==> !keeps(views, #[trigger] views[k], key@, now),
        decreases files@.len() - i,
    {
        proof {
            assert(views[i as int] == files@[i as int]@);
        }
        if let Some(kept) = kept_key(files, &files[i], now) {
            if same(&kept, key) {
                return true;
            }
            proof {
                assert(kind_of(views[i as int].name) == KindView::Metadata(kept@));
            }
        }
        i += 1;
    }
    false
}

fn useless(files: &Vec<StoredFile>, file: &StoredFile, now: u64) -> (r: bool)
    ensures
        r == is_useless(file_views(files@), file@, now),
{
    match classify(&file.name) {
        FileKind::Temporary => true,
        FileKind::Metadata(key) => {
            let kept = kept_key(files, file, now);
            proof {
                if kept is Some {
                    assert(kept->0@ == key@);
                }
            }
            kept.is_none()
        },
        FileKind::Body(key) => !any_keeps(files, &key, now),
        FileKind::Other => false,
    }
}

/// The names of the files that have to go when the cache starts.
pub fn useless_files(files: &Vec<StoredFile>, now: u64) -> (names: Vec<String>)
    ensures
        text::texts(names@) == useless_names(file_views(files@), files@.len(), now),
{
    let ghost views = file_views(files@);
    let mut names: Vec<String> = Vec::new();
    let mut i: usize = 0;
    proof {
        assert(text::texts(names@) =~= Seq::empty());
    }
    while i < files.len()
        invariant
            i <= files@.len(),
            views == file_views(files@),
            text::texts(names@) == useless_names(views, i as nat, now),
        decreases files@.len() - i,
    {
        proof {
            assert(views[i as int] == files@[i as int]@);
        }
        if useless(files, &files[i], now) {
            let name = files[i].name.clone();
            proof {
                assert(text::texts(names@.push(name)) =~= text::texts(names@).push(name@));
            }
            names.push(name);
        }
        i += 1;
    }
    names
}

/// An entry that may have to go when the cache is too large.
pub struct Candidate {
    /// When the entry was last served.
    pub last_access: u64,
    /// Its key.
    pub key: String,
    /// The length of its two files together.
    pub size: u64,
}

/// An entry that may have to go when the cache is too large.
pub struct CandidateView {
    pub last_access: u64,
    pub key: Seq<char>,
    pub size: u64,
}

impl View for Candidate {
    type V = CandidateView;

    open spec fn view(&self) -> CandidateView {
        CandidateView { last_access: self.last_access, key: self.key@, size: self.size }
    }
}

pub open spec fn candidate_views(candidates: Seq<Candidate>) -> Seq<CandidateView> {
    candidates.map_values(|c: Candidate| c@)
}

/// The entries that are kept among the first `count` files, with the length of their two
/// files together.
pub open spec fn kept_candidates(files: Seq<FileView>, count: nat, now: u64) -> Seq<CandidateView>
    decreases count,
{
    if count == 0 {
        Seq::empty()
    } else {
        let before = kept_candidates(files, (count - 1) as nat, now);
        let file = files[count - 1];
        match kind_of(file.name) {
            KindView::Metadata(key) => if keeps(files, file, key, now) {
                before.push(
                    CandidateView {
                        last_access: file.entry->0.last_access,
                        key,
                        size: limit::capped_sum(file.len, file.entry->0.body_len),
                    },
                )
            } else {
                before
            },
            _ => before,
        }
    }
}

/// The entries that are kept when the cache starts.
pub fn kept_entries(files: &Vec<StoredFile>, now: u64) -> (kept: Vec<Candidate>)
    ensures
        candidate_views(kept@) == kept_candidates(file_views(files@), files@.len(), now),
{
    let ghost views = file_views(files@);
    let mut kept: Vec<Candidate> = Vec::new();
    let mut i: usize = 0;
    proof {
        assert(candidate_views(kept@) =~= Seq::empty());
    }
    while i < files.len()
        invariant
            i <= files@.len(),
            views == file_views(files@),
            candidate_views(kept@) == kept_candidates(views, i as nat, now),
        decreases files@.len() - i,
    {
        let file = &files[i];
        proof {
            assert(views[i as int] == file@);
        }
        if let Some(key) = kept_key(files, file, now) {
            if let Some(entry) = &file.entry {
                let candidate = Candidate {
                    last_access: entry.last_access,
                    key,
                    size: file.len.saturating_add(entry.body_len),
                };
                proof {
                    assert(candidate_views(kept@.push(candidate)) =~= candidate_views(
                        kept@,
                    ).push(candidate@));
                }
                kept.push(candidate);
            }
        }
        i += 1;
    }
    kept
}

/// The entries among the first `count` files, with the length of their two files together.
/// A body that is missing counts nothing.
pub open spec fn stored_candidates(files: Seq<FileView>, count: nat) -> Seq<CandidateView>
    decreases count,
{
    if count == 0 {
        Seq::empty()
    } else {
        let before = stored_candidates(files, (count - 1) as nat);
        let file = files[count - 1];
        match (kind_of(file.name), file.entry) {
            (KindView::Metadata(key), Some(entry)) => before.push(
                CandidateView {
                    last_access: entry.last_access,
                    key,
                    size: match length_of(files, body_file(key)) {
                        Some(len) => limit::capped_sum(file.len, len),
                        None => file.len,
                    },
                },
            ),
            _ => before,
        }
    }
}

/// The entries that the cache directory holds.
pub fn stored_entries(files: &Vec<StoredFile>) -> (found: Vec<Candidate>)
    ensures
        candidate_views(found@) == stored_candidates(file_views(files@), files@.len()),
{
    let ghost views = file_views(files@);
    let mut found: Vec<Candidate> = Vec::new();
    let mut i: usize = 0;
    proof {
        assert(candidate_views(found@) =~= Seq::empty());
    }
    while i < files.len()
        invariant
            i <= files@.len(),
            views == file_views(files@),
            candidate_views(found@) == stored_candidates(views, i as nat),
        decreases files@.len() - i,
    {
        let file = &files[i];
        proof {
            assert(views[i as int] == file@);
        }
        if let FileKind::Metadata(key) = classify(&file.name) {
            if let Some(entry) = &file.entry {
                let size: u64 = match find_length(files, &body_name(&key)) {
                    Some(len) => file.len.saturating_add(len),
                    None => file.len,
                };
                let candidate = Candidate { last_access: entry.last_access, key, size };
                proof {
                    assert(candidate_views(found@.push(candidate)) =~= candidate_views(
                        found@,
                    ).push(candidate@));
                }
                found.push(candidate);
            }
        }
        i += 1;
    }
    found
}

/// The sizes of some entries together, as far as 64 bits count.
pub open spec fn counted_size(candidates: Seq<CandidateView>) -> u64
    decreases candidates.len(),
{
    if candidates.len() == 0 {
        0
    } else {
        limit::capped_sum(counted_size(candidates.drop_last()), candidates.last().size)
    }
}

/// The position of the entry that was served least recently, the first of several.
pub open spec fn oldest(candidates: Seq<CandidateView>) -> int
    decreases candidates.len(),
{
    if candidates.len() <= 1 {
        0
    } else {
        let before = oldest(candidates.drop_last());
        if candidates.last().last_access < candidates[before].last_access {
            candidates.len() - 1
        } else {
            before
        }
    }
}

/// What `oldest` gives is what its name says.
pub proof fn lemma_oldest(candidates: Seq<CandidateView>)
    requires
        candidates.len() > 0,
    ensures
        0 <= oldest(candidates) < candidates.len(),
        forall|i: int|
            0 <= i < candidates.len() ==> candidates[oldest(candidates)].last_access <= (
            #[trigger] candidates[i]).last_access,
        forall|i: int|
            0 <= i < oldest(candidates) ==> candidates[oldest(candidates)].last_access < (
            #[trigger] candidates[i]).last_access,
    decreases candidates.len(),
{
    if candidates.len() > 1 {
        let before = candidates.drop_last();
        lemma_oldest(before);
        assert(forall|i: int| 0 <= i < before.len() ==> before[i] == candidates[i]);
    }
}

/// The entries that go, in order, and those that stay: the least recently used one goes,
/// again and again, until the rest fits.
pub open spec fn eviction(candidates: Seq<CandidateView>, total: u64, max_size: u64) -> (
    Seq<CandidateView>,
    Seq<CandidateView>,
)
    decreases candidates.len(),
{
    if total <= max_size || candidates.len() == 0 {
        (Seq::empty(), candidates)
    } else {
        proof {
            lemma_oldest(candidates);
        }
        let first = candidates[oldest(candidates)];
        let left = if total < first.size {
            0
        } else {
            (total - first.size) as u64
        };
        let (gone, rest) = eviction(candidates.remove(oldest(candidates)), left, max_size);
        (seq![first] + gone, rest)
    }
}

/// The keys of some entries.
pub open spec fn keys_of(candidates: Seq<CandidateView>) -> Seq<Seq<char>> {
    candidates.map_values(|c: CandidateView| c.key)
}

fn count_size(candidates: &Vec<Candidate>) -> (total: u64)
    ensures
        total == counted_size(candidate_views(candidates@)),
{
    let ghost views = candidate_views(candidates@);
    let mut total: u64 = 0;
    let mut i: usize = 0;
    proof {
        assert(views.take(0) =~= Seq::empty());
    }
    while i < candidates.len()
        invariant
            i <= candidates@.len(),
            views == candidate_views(candidates@),
            total == counted_size(views.take(i as int)),
        decreases candidates@.len() - i,
    {
        proof {
            assert(views.take(i + 1).drop_last() =~= views.take(i as int));
            assert(views.take(i + 1).last() == candidates@[i as int]@);
        }
        total = total.saturating_add(candidates[i].size);
        i += 1;
    }
    proof {
        assert(views.take(candidates@.len() as int) =~= views);
    }
    total
}

fn find_oldest(candidates: &Vec<Candidate>) -> (r: usize)
    requires
        candidates@.len() > 0,
    ensures
        r == oldest(candidate_views(candidates@)),
        r < candidates@.len(),
{
    let ghost views = candidate_views(candidates@);
    let mut found: usize = 0;
    let mut i: usize = 1;
    while i < candidates.len()
        invariant
            1 <= i <= candidates@.len(),
            views == candidate_views(candidates@),
            found < i,
            found == oldest(views.take(i as int)),
        decreases candidates@.len() - i,
    {
        proof {
            assert(views.take(i + 1).drop_last() =~= views.take(i as int));
            assert(views.take(i + 1).last() == candidates@[i as int]@);
            assert(views.take(i + 1)[found as int] == candidates@[found as int]@);
        }
        if candidates[i].last_access < candidates[found].last_access {
            found = i;
        }
        i += 1;
    }
    proof {
        assert(views.take(candidates@.len() as int) =~= views);
    }
    found
}

/// The keys of the entries that have to go, least recently used first, for the rest to
/// fit.
pub fn evict(candidates: Vec<Candidate>, max_size: u64) -> (keys: Vec<String>)
    ensures
        text::texts(keys@) == keys_of(
            eviction(
                candidate_views(candidates@),
                counted_size(candidate_views(candidates@)),
                max_size,
            ).0,
        ),
{
    let ghost all = candidate_views(candidates@);
    let mut total: u64 = count_size(&candidates);
    let ghost whole = total;
    let mut left = candidates;
    let mut keys: Vec<String> = Vec::new();
    proof {
        assert(text::texts(keys@) + keys_of(eviction(all, whole, max_size).0) =~= keys_of(
            eviction(all, whole, max_size).0,
        ));
    }
    while total > max_size && left.len() > 0
        invariant
            text::texts(keys@) + keys_of(
                eviction(candidate_views(left@), total, max_size).0,
            ) == keys_of(eviction(all, whole, max_size).0),
        decreases left@.len(),
    {
        let ghost views = candidate_views(left@);
        proof {
            lemma_oldest(views);
        }
        let ghost before = total;
        let at: usize = find_oldest(&left);
        let first = left.remove(at);
        let size: u64 = first.size;
        total = total.saturating_sub(size);
        proof {
            assert(candidate_views(left@) =~= views.remove(at as int));
            let rest = eviction(views.remove(at as int), total, max_size).0;
            assert(eviction(views, before, max_size).0 == seq![first@] + rest);
            assert(keys_of(seq![first@] + rest) =~= seq![first.key@] + keys_of(rest));
            assert(text::texts(keys@.push(first.key)) =~= text::texts(keys@).push(first.key@));
            assert(text::texts(keys@).push(first.key@) + keys_of(rest) =~= text::texts(keys@) + (
            seq![first.key@] + keys_of(rest)));
        }
        keys.push(first.key);
    }
    proof {
        assert(text::texts(keys@) + keys_of(Seq::empty()) =~= text::texts(keys@));
    }
    keys
}

/// The sizes of some entries together.
pub open spec fn full_size(candidates: Seq<CandidateView>) -> nat
    decreases candidates.len(),
{
    if candidates.len() == 0 {
        0
    } else {
        full_size(candidates.drop_last()) + candidates.last().size as nat
    }
}

/// As long as 64 bits suffice, sizes are counted in full.
proof fn lemma_counted_size(candidates: Seq<CandidateView>)
    ensures
        counted_size(candidates) == (if full_size(candidates) > u64::MAX {
            u64::MAX as nat
        } else {
            full_size(candidates)
        }),
    decreases candidates.len(),
{
    if candidates.len() > 0 {
        lemma_counted_size(candidates.drop_last());
    }
}

/// Without one entry, the sizes are less by its size.
proof fn lemma_full_size_remove(candidates: Seq<CandidateView>, i: int)
    requires
        0 <= i < candidates.len(),
    ensures
        full_size(candidates) == full_size(candidates.remove(i)) + candidates[i].size,
    decreases candidates.len(),
{
    if i < candidates.len() - 1 {
        lemma_full_size_remove(candidates.drop_last(), i);
        assert(candidates.remove(i).drop_last() =~= candidates.drop_last().remove(i));
    } else {
        assert(candidates.remove(i) =~= candidates.drop_last());
    }
}

proof fn lemma_eviction(candidates: Seq<CandidateView>, total: u64, max_size: u64)
    requires
        total == full_size(candidates),
    ensures
        ({
            let (gone, rest) = eviction(candidates, total, max_size);
            &&& gone.to_multiset().add(rest.to_multiset()) == candidates.to_multiset()
            &&& full_size(rest) <= max_size
            &&& gone.len() > 0 ==> full_size(rest) + gone.last().size > max_size
            &&& forall|i: int, j: int|
                0 <= i < gone.len() && 0 <= j < rest.len() ==> (#[trigger] gone[i]).last_access <= (
                #[trigger] rest[j]).last_access
            &&& forall|i: int, j: int|
                0 <= i <= j < gone.len() ==> (#[trigger] gone[i]).last_access <= (
                #[trigger] gone[j]).last_access
        }),
    decreases candidates.len(),
{
    broadcast use vstd::seq_lib::group_to_multiset_ensures;
    broadcast use vstd::multiset::group_multiset_axioms;

    if total <= max_size || candidates.len() == 0 {
        assert(Seq::<CandidateView>::empty().to_multiset().add(candidates.to_multiset())
            =~= candidates.to_multiset());
    } else {
        lemma_oldest(candidates);
        let at = oldest(candidates);
        let first = candidates[at];
        let others = candidates.remove(at);
        lemma_full_size_remove(candidates, at);
        let left = (total - first.size) as u64;
        lemma_eviction(others, left, max_size);
        let (gone, rest) = eviction(others, left, max_size);
        let all = seq![first] + gone;
        assert(eviction(candidates, total, max_size) == (all, rest));
        vstd::seq_lib::lemma_multiset_commutative(seq![first], gone);
        let none = Seq::<CandidateView>::empty();
        assert(seq![first] =~= none.push(first));
        vstd::seq_lib::to_multiset_build(none, first);
        assert(none.to_multiset() =~= vstd::multiset::Multiset::empty());
        vstd::seq_lib::to_multiset_remove(candidates, at);
        assert(candidates.to_multiset().count(first) > 0);
        assert(seq![first].to_multiset() == none.to_multiset().insert(first));
        assert(all.to_multiset() == seq![first].to_multiset().add(gone.to_multiset()));
        assert(others.to_multiset() == candidates.to_multiset().remove(first));
        assert(gone.to_multiset().add(rest.to_multiset()) == others.to_multiset());
        assert forall|c: CandidateView|
            #![auto]
            all.to_multiset().add(rest.to_multiset()).count(c) == candidates.to_multiset().count(
                c,
            ) by {
            assert(others.to_multiset().count(c) == gone.to_multiset().count(c)
                + rest.to_multiset().count(c));
            assert(all.to_multiset().count(c) == seq![first].to_multiset().count(c)
                + gone.to_multiset().count(c));
        }
        assert(all.to_multiset().add(rest.to_multiset()) =~= candidates.to_multiset());
        assert forall|c: CandidateView| #[trigger]
            others.to_multiset().count(c) > 0 implies first.last_access <= c.last_access by {
            let k = choose|k: int| 0 <= k < others.len() && others[k] == c;
            assert(others[k] == candidates[if k < at {
                k
            } else {
                k + 1
            }]);
        }
        assert forall|i: int| 0 <= i < gone.len() implies first.last_access <= (
        #[trigger] gone[i]).last_access by {
            assert(gone.to_multiset().count(gone[i]) > 0);
            assert(others.to_multiset().count(gone[i]) > 0);
        }
        assert forall|i: int| 0 <= i < rest.len() implies first.last_access <= (
        #[trigger] rest[i]).last_access by {
            assert(rest.to_multiset().count(rest[i]) > 0);
            assert(others.to_multiset().count(rest[i]) > 0);
        }
        assert forall|i: int, j: int| 0 <= i <= j < all.len() implies (
        #[trigger] all[i]).last_access <= (#[trigger] all[j]).last_access by {
            if i > 0 {
                assert(all[i] == gone[i - 1]);
                assert(all[j] == gone[j - 1]);
            } else if j > 0 {
                assert(all[j] == gone[j - 1]);
            }
        }
        if gone.len() > 0 {
            assert(all.last() == gone.last());
        } else {
            assert(all.last() == first);
        }
    }
}

/// Eviction takes the least recently used entries, and no more of them than it has to:
/// every entry goes or stays, what stays fits, what goes was used no later than what
/// stays, and without the last one to go the rest would not fit. (The sizes together
/// have to be a number that 64 bits can hold.)
pub proof fn law_eviction(candidates: Seq<CandidateView>, max_size: u64)
    requires
        full_size(candidates) <= u64::MAX,
    ensures
        ({
            let (gone, rest) = eviction(candidates, counted_size(candidates), max_size);
            &&& gone.to_multiset().add(rest.to_multiset()) == candidates.to_multiset()
            &&& full_size(rest) <= max_size
            &&& gone.len() > 0 ==> full_size(rest) + gone.last().size > max_size
            &&& forall|i: int, j: int|
                0 <= i < gone.len() && 0 <= j < rest.len() ==> (#[trigger] gone[i]).last_access <= (
                #[trigger] rest[j]).last_access
            &&& forall|i: int, j: int|
                0 <= i <= j < gone.len() ==> (#[trigger] gone[i]).last_access <= (
                #[trigger] gone[j]).last_access
        }),
{
    lemma_counted_size(candidates);
    lemma_eviction(candidates, counted_size(candidates), max_size);
}

/// As long as everything fits, nothing is evicted.
pub proof fn law_nothing_evicted_in_vain(candidates: Seq<CandidateView>, max_size: u64)
    requires
        full_size(candidates) <= max_size,
    ensures
        eviction(candidates, counted_size(candidates), max_size) == (
            Seq::<CandidateView>::empty(),
            candidates,
        ),
{
    lemma_counted_size(candidates);
}

/// What is kept when the cache starts is kept whole: neither the metadata nor the body of
/// an entry that is worth keeping is removed, and nothing else of the cache's files stays.
pub proof fn law_cleanup(files: Seq<FileView>, file: FileView, now: u64)
    requires
        files.contains(file),
    ensures
        kind_of(file.name) is Temporary ==> is_useless(files, file, now),
        kind_of(file.name) is Other ==> !is_useless(files, file, now),
        kind_of(file.name) is Body ==> (is_useless(files, file, now) <==> !is_kept(
            files,
            kind_of(file.name)->Body_0,
            now,
        )),
        kind_of(file.name) is Metadata && !is_useless(files, file, now) ==> is_kept(
            files,
            kind_of(file.name)->Metadata_0,
            now,
        ) && cache::age(file.entry->0, now) < file.entry->0.ttl,
{
    let i = choose|i: int| 0 <= i < files.len() && files[i] == file;
    if kind_of(file.name) is Metadata && !is_useless(files, file, now) {
        assert(keeps(files, files[i], kind_of(file.name)->Metadata_0, now));
    }
}

/// The characters of a cache key.
pub open spec fn is_key(key: Seq<char>) -> bool {
    &&& key.len() > 0
    &&& forall|i: int|
        0 <= i < key.len() ==> '0' <= #[trigger] key[i] <= '9' || 'a' <= key[i] <= 'f'
}

/// The files of an entry are told apart by their names, and what was being written is
/// recognised.
pub proof fn law_names_are_told_apart(key: Seq<char>, process: u32, number: u64)
    requires
        is_key(key),
    ensures
        kind_of(body_file(key)) == KindView::Body(key),
        kind_of(meta_file(key)) == KindView::Metadata(key),
        kind_of(temporary_file(key, ".body.tmp-"@, process, number)) == KindView::Temporary,
        kind_of(temporary_file(key, ".meta.tmp-"@, process, number)) == KindView::Temporary,
{
    reveal_strlit(".body");
    reveal_strlit(".json");
    reveal_strlit(".body.tmp-");
    reveal_strlit(".meta.tmp-");
    reveal_strlit(".");
    let body = body_file(key);
    assert(body.first() == key[0]);
    assert(body.skip(body.len() - 5) =~= ".body"@);
    assert(body.take(body.len() - 5) =~= key);
    assert(body.skip(body.len() - 5)[1] != ".json"@[1]);
    let meta = meta_file(key);
    assert(meta.first() == key[0]);
    assert(meta.skip(meta.len() - 5) =~= ".json"@);
    assert(meta.take(meta.len() - 5) =~= key);
    let at = 1 + key.len() as int;
    let body_mark = temporary_file(key, ".body.tmp-"@, process, number);
    assert(body_mark.first() == '.');
    assert(body_mark.subrange(at, at + 10) =~= ".body.tmp-"@);
    lemma_numbered_end(body_mark, number);
    let meta_mark = temporary_file(key, ".meta.tmp-"@, process, number);
    assert(meta_mark.first() == '.');
    assert(meta_mark.subrange(at, at + 10) =~= ".meta.tmp-"@);
    lemma_numbered_end(meta_mark, number);
}

/// A name that ends in a number is not that of metadata.
proof fn lemma_numbered_end(name: Seq<char>, number: u64)
    requires
        name.len() > 0,
        name.last() == text::decimal(number as nat).last(),
    ensures
        stem(name, ".json"@) is None,
{
    reveal_strlit(".json");
    assert('0' <= name.last() <= '9');
    if text::ends(name, ".json"@) {
        assert(name.skip(name.len() - 5).last() == name.last());
    }
}

/// The files of an entry are named by its key, each with its own ending; while it is being
/// written, a file is hidden and marked, with the process and a number behind the mark.
pub proof fn law_file_names(
    key: &str,
    process: u32,
    number: u64,
    body: String,
    meta: String,
    writing_body: String,
    writing_meta: String,
)
    requires
        call_ensures(body_name, (key,), body),
        call_ensures(meta_name, (key,), meta),
        call_ensures(temporary_body_name, (key, process, number), writing_body),
        call_ensures(temporary_meta_name, (key, process, number), writing_meta),
    ensures
        body@ == key@ + ".body"@,
        meta@ == key@ + ".json"@,
        ({
            let end = text::decimal(process as nat) + "-"@ + text::decimal(number as nat);
            &&& writing_body@ == "."@ + key@ + ".body.tmp-"@ + end
            &&& writing_meta@ == "."@ + key@ + ".meta.tmp-"@ + end
        }),
{
    let end = text::decimal(process as nat) + "-"@ + text::decimal(number as nat);
    assert(writing_body@ =~= "."@ + key@ + ".body.tmp-"@ + end);
    assert(writing_meta@ =~= "."@ + key@ + ".meta.tmp-"@ + end);
}

/// What a file is, its name says: metadata ends in `.json` and a body in `.body`, with the
/// key before that; a hidden file that is marked and is not metadata was being written; and
/// there are no others of the cache's.
pub proof fn law_kinds(name: Seq<char>, key: Seq<char>)
    ensures
        ({
            let marked = name.len() > 0 && name[0] == '.' && (exists|i: int|
                0 <= i <= name.len() - 10 && (#[trigger] name.subrange(i, i + 10) == seq![
                    '.',
                    'b',
                    'o',
                    'd',
                    'y',
                    '.',
                    't',
                    'm',
                    'p',
                    '-',
                ] || name.subrange(i, i + 10) == seq![
                    '.',
                    'm',
                    'e',
                    't',
                    'a',
                    '.',
                    't',
                    'm',
                    'p',
                    '-',
                ]));
            let json = seq!['.', 'j', 's', 'o', 'n'];
            let body = seq!['.', 'b', 'o', 'd', 'y'];
            &&& kind_of(name) == KindView::Metadata(key) <==> key.len() > 0 && name == key + json
            &&& kind_of(name) is Temporary <==> marked && !(kind_of(name) is Metadata)
            &&& kind_of(name) == KindView::Body(key) <==> key.len() > 0 && name == key + body
                && !marked
        }),
{
    reveal_strlit(".json");
    reveal_strlit(".body");
    reveal_strlit(".body.tmp-");
    reveal_strlit(".meta.tmp-");
    let json = seq!['.', 'j', 's', 'o', 'n'];
    let body = seq!['.', 'b', 'o', 'd', 'y'];
    let body_mark = seq!['.', 'b', 'o', 'd', 'y', '.', 't', 'm', 'p', '-'];
    let meta_mark = seq!['.', 'm', 'e', 't', 'a', '.', 't', 'm', 'p', '-'];
    assert(".json"@ =~= json);
    assert(".body"@ =~= body);
    assert(".body.tmp-"@ =~= body_mark);
    assert(".meta.tmp-"@ =~= meta_mark);
    lemma_stem(name, json, key);
    lemma_stem(name, body, key);
    if is_temporary(name) {
        if holds(name, body_mark) {
            let i = choose|i: int|
                0 <= i <= name.len() - body_mark.len() && #[trigger] name.subrange(
                    i,
                    i + body_mark.len(),
                ) == body_mark;
            assert(name.subrange(i, i + 10) == body_mark);
        } else {
            let i = choose|i: int|
                0 <= i <= name.len() - meta_mark.len() && #[trigger] name.subrange(
                    i,
                    i + meta_mark.len(),
                ) == meta_mark;
            assert(name.subrange(i, i + 10) == meta_mark);
        }
    }
    if exists|i: int|
        0 <= i <= name.len() - 10 && (#[trigger] name.subrange(i, i + 10) == body_mark
            || name.subrange(i, i + 10) == meta_mark) {
        let i = choose|i: int|
            0 <= i <= name.len() - 10 && (#[trigger] name.subrange(i, i + 10) == body_mark
                || name.subrange(i, i + 10) == meta_mark);
        if name.subrange(i, i + 10) == body_mark {
            assert(name.subrange(i, i + body_mark.len()) == body_mark);
            assert(holds(name, body_mark));
        } else {
            assert(name.subrange(i, i + meta_mark.len()) == meta_mark);
            assert(holds(name, meta_mark));
        }
    }
    if stem(name, json) is Some && stem(name, body) is Some {
        assert(name.skip(name.len() - 5)[1] == 'j');
        assert(name.skip(name.len() - 5)[1] == 'b');
    }
}

proof fn lemma_stem(name: Seq<char>, suffix: Seq<char>, key: Seq<char>)
    ensures
        stem(name, suffix) == Some(key) <==> key.len() > 0 && name == key + suffix,
{
    if stem(name, suffix) is Some {
        assert(name =~= name.take(name.len() - suffix.len()) + suffix);
    }
    if key.len() > 0 && name == key + suffix {
        assert(name.skip(name.len() - suffix.len()) =~= suffix);
        assert(name.take(name.len() - suffix.len()) =~= key);
    }
}

/// The length of a file is that of the file of its name, and there is none without one.
pub proof fn law_lengths(files: Seq<FileView>, file: FileView, name: Seq<char>)
    ensures
        length_of(Seq::empty(), name) is None,
        file.name == name ==> length_of(files.push(file), name) == Some(file.len),
        file.name != name ==> length_of(files.push(file), name) == length_of(files, name),
{
    assert(files.push(file).drop_last() =~= files);
}

/// Metadata is worth keeping exactly when it can be read, has the version of today, its body
/// is there in full, and fewer seconds have passed since it was stored than it may be kept.
pub proof fn law_worth_keeping(
    files: Seq<FileView>,
    file: FileView,
    key: Seq<char>,
    entry: CacheEntryView,
    now: u64,
)
    requires
        file.name == key + ".json"@,
        key.len() > 0,
        file.entry == Some(entry),
        now >= entry.created_at,
    ensures
        keeps(files, file, key, now) <==> {
            &&& entry.version == 1
            &&& length_of(files, key + ".body"@) == Some(entry.body_len)
            &&& now - entry.created_at < entry.ttl
        },
        is_useless(files, file, now) <==> !keeps(files, file, key, now),
{
    reveal_strlit(".json");
    assert(".json"@ =~= seq!['.', 'j', 's', 'o', 'n']);
    law_kinds(file.name, key);
}

/// Metadata that cannot be read is useless, and what was being written; a body is useless
/// exactly when no metadata of its key is worth keeping; and a file that is not the cache's
/// is left alone.
pub proof fn law_useless_files(files: Seq<FileView>, file: FileView, key: Seq<char>, now: u64)
    ensures
        kind_of(file.name) is Temporary ==> is_useless(files, file, now),
        kind_of(file.name) is Other ==> !is_useless(files, file, now),
        kind_of(file.name) is Metadata && file.entry is None ==> is_useless(files, file, now),
        kind_of(file.name) == KindView::Body(key) ==> (is_useless(files, file, now) <==> forall|
            i: int,
        |
            0 <= i < files.len() ==> !keeps(files, #[trigger] files[i], key, now)),
{
}

/// What has to go is named, file for file and in order, and nothing else is.
pub proof fn law_useless_names(files: Seq<FileView>, count: nat, now: u64)
    requires
        count < files.len(),
    ensures
        useless_names(files, 0, now).len() == 0,
        is_useless(files, files[count as int], now) ==> useless_names(files, count + 1, now)
            == useless_names(files, count, now).push(files[count as int].name),
        !is_useless(files, files[count as int], now) ==> useless_names(files, count + 1, now)
            == useless_names(files, count, now),
{
}

/// Every entry that is read counts, with the time of its last use and the bytes of its two
/// files, a body that is missing counting nothing; nothing else counts.
pub proof fn law_what_counts(files: Seq<FileView>, count: nat, key: Seq<char>)
    requires
        count < files.len(),
    ensures
        ({
            let file = files[count as int];
            let (before, after) = (
                stored_candidates(files, count),
                stored_candidates(files, count + 1),
            );
            let body: int = match length_of(files, key + ".body"@) {
                Some(len) => len as int,
                None => 0,
            };
            &&& stored_candidates(files, 0).len() == 0
            &&& file.entry is None || !(kind_of(file.name) is Metadata) ==> after == before
            &&& kind_of(file.name) == KindView::Metadata(key) && file.entry is Some ==> {
                &&& after.len() == before.len() + 1
                &&& after.drop_last() == before
                &&& after.last().key == key
                &&& after.last().last_access == file.entry->0.last_access
                &&& file.len + body <= 0xffff_ffff_ffff_ffff ==> after.last().size == file.len
                    + body
                &&& file.len + body > 0xffff_ffff_ffff_ffff ==> after.last().size
                    == 0xffff_ffff_ffff_ffff
            }
        }),
{
    let file = files[count as int];
    if kind_of(file.name) == KindView::Metadata(key) && file.entry is Some {
        assert(stored_candidates(files, count + 1).drop_last() =~= stored_candidates(files, count));
    }
}

/// When the cache starts, the entries that are worth keeping count, with the bytes of their
/// two files.
pub proof fn law_what_counts_at_start(files: Seq<FileView>, count: nat, key: Seq<char>, now: u64)
    requires
        count < files.len(),
    ensures
        ({
            let file = files[count as int];
            let (before, after) = (
                kept_candidates(files, count, now),
                kept_candidates(files, count + 1, now),
            );
            let size = file.len + file.entry->0.body_len;
            &&& kept_candidates(files, 0, now).len() == 0
            &&& kind_of(file.name) == KindView::Metadata(key) && !keeps(files, file, key, now)
                ==> after == before
            &&& !(kind_of(file.name) is Metadata) ==> after == before
            &&& keeps(files, file, key, now) ==> {
                &&& after.len() == before.len() + 1
                &&& after.drop_last() == before
                &&& after.last().key == key
                &&& after.last().last_access == file.entry->0.last_access
                &&& size <= 0xffff_ffff_ffff_ffff ==> after.last().size == size
            }
        }),
{
    let file = files[count as int];
    if keeps(files, file, key, now) {
        assert(kept_candidates(files, count + 1, now).drop_last() =~= kept_candidates(
            files,
            count,
            now,
        ));
    }
}

/// The size of some entries is the sum of theirs, as far as 64 bits can hold that.
pub proof fn law_sizes(candidates: Seq<CandidateView>, more: CandidateView)
    ensures
        counted_size(Seq::empty()) == 0,
        counted_size(candidates) + more.size <= 0xffff_ffff_ffff_ffff ==> counted_size(
            candidates.push(more),
        ) == counted_size(candidates) + more.size,
        counted_size(candidates) + more.size > 0xffff_ffff_ffff_ffff ==> counted_size(
            candidates.push(more),
        ) == 0xffff_ffff_ffff_ffff,
{
    assert(candidates.push(more).drop_last() =~= candidates);
}

/// The next entry to go is the one that was used least recently, the first of them where
/// there are several.
pub proof fn law_least_recently_used(candidates: Seq<CandidateView>, total: u64, max_size: u64)
    requires
        candidates.len() > 0,
        total > max_size,
    ensures
        eviction(candidates, total, max_size).0.len() > 0,
        exists|at: int|
            0 <= at < candidates.len() && eviction(candidates, total, max_size).0.first()
                == #[trigger] candidates[at] && (forall|i: int|
                0 <= i < candidates.len() ==> candidates[at].last_access <= (
                #[trigger] candidates[i]).last_access) && (forall|i: int|
                0 <= i < at ==> candidates[at].last_access < (
                #[trigger] candidates[i]).last_access),
{
    lemma_oldest(candidates);
    let at = oldest(candidates);
    assert(eviction(candidates, total, max_size).0.first() == candidates[at]);
}

/// What goes is named by its keys, in the order in which it goes.
pub proof fn law_evicted_keys(candidates: Vec<Candidate>, max_size: u64, r: Vec<String>, i: int)
    requires
        call_ensures(evict, (candidates, max_size), r),
        full_size(candidate_views(candidates@)) <= u64::MAX,
    ensures
        ({
            let all = candidate_views(candidates@);
            let (gone, rest) = eviction(all, counted_size(all), max_size);
            &&& r@.len() == gone.len()
            &&& 0 <= i < r@.len() ==> r@[i]@ == gone[i].key
            &&& full_size(rest) <= max_size
            &&& r@.len() == 0 <==> full_size(all) <= max_size
        }),
{
    let all = candidate_views(candidates@);
    let (gone, rest) = eviction(all, counted_size(all), max_size);
    law_eviction(all, max_size);
    assert(text::texts(r@) == keys_of(gone));
    assert(text::texts(r@).len() == gone.len());
    if 0 <= i < r@.len() {
        assert(text::texts(r@)[i] == keys_of(gone)[i]);
    }
    if full_size(all) <= max_size {
        law_nothing_evicted_in_vain(all, max_size);
    } else {
        lemma_counted_size(all);
        lemma_oldest(all);
    }
}

/// Files are told apart, and the useless, the kept and the stored among them found, as
/// stated.
pub proof fn law_finding_files(
    name: &str,
    kind: FileKind,
    files: Vec<StoredFile>,
    now: u64,
    useless: Vec<String>,
    kept: Vec<Candidate>,
    found: Vec<Candidate>,
)
    requires
        call_ensures(classify, (name,), kind),
        call_ensures(useless_files, (&files, now), useless),
        call_ensures(kept_entries, (&files, now), kept),
        call_ensures(stored_entries, (&files,), found),
    ensures
        kind@ == kind_of(name@),
        text::texts(useless@) == useless_names(file_views(files@), files@.len(), now),
        candidate_views(kept@) == kept_candidates(file_views(files@), files@.len(), now),
        candidate_views(found@) == stored_candidates(file_views(files@), files@.len()),
{
}

} // verus!
