//! What goes into a body: the listing of a directory, the entries of an
//! archive, and the bytes of a file or of a range of it.
//!
//! Nothing here reads a directory or a file.  The caller walks the
//! directory and hands over its entries; it reads the file and hands over
//! what each read gave.

use vstd::prelude::*;
use vstd::seq_lib::*;
use crate::extensions::{components, file_name, relatively_hidden, PathExt, PathType};
use crate::paths::{glue, join, joined, parts, path_parts, starts_with_path, under};
use crate::server::listing::{
    lemma_listing_order_unique, listing_order, sort_items, views, Item, ItemView,
};
use crate::server::serve::SendError;
use crate::text::{append, to_vec, DOT, SLASH};

verus! {

/// How many bytes are read from a file at a time.
pub const BUFFER_SIZE: usize = 4096;

/// The permissions that every entry of an archive gets.
pub const ZIP_PERMISSIONS: u32 = 0o755;

/// One entry that a walk of a directory found.
#[derive(Debug, Clone, PartialEq, Eq)]
pub struct Entry {
    /// The path of the entry from the directory walked.
    pub path: Vec<u8>,
    pub path_type: PathType,
    /// Whether the gitignore rules ignore the entry.
    pub ignored: bool,
}

/// One step on the way from the directory served to the one listed.
#[derive(Debug, Clone, PartialEq, Eq)]
pub struct Breadcrumb {
    pub name: Vec<u8>,
    pub path: Vec<u8>,
}

/// What the page of a directory shows.
#[derive(Debug, Clone, PartialEq, Eq)]
pub struct Listing {
    pub dir_name: Vec<u8>,
    pub files: Vec<Item>,
    pub breadcrumbs: Vec<Breadcrumb>,
}

/// One entry of an archive: its name, and whether it is a directory.
#[derive(Debug, Clone, PartialEq, Eq)]
pub struct ZipEntry {
    pub name: Vec<u8>,
    pub is_dir: bool,
}

/// How to read a range of a file: where to start, how many bytes to take
/// at most, and how many there will be.
#[derive(Debug, Clone, Copy, PartialEq, Eq)]
pub struct RangeBody {
    pub start: u64,
    pub take: u64,
    pub size: u64,
}

/// Whether an entry goes into a listing or an archive: it is not the
/// directory walked itself, it is not hidden unless everything is shown,
/// and it is not ignored where the gitignore rules count.
pub open spec fn shown(entry: &Entry, show_all: bool, with_ignore: bool) -> bool {
    &&& components(entry.path@).len() > 0
    &&& show_all || !relatively_hidden(entry.path@)
    &&& !(with_ignore && entry.ignored)
}

/// The link to a path from the directory served: the path prefix, a
/// slash, and the path.
pub open spec fn link(prefix: Seq<u8>, rel: Seq<u8>) -> Seq<u8> {
    prefix + seq![SLASH] + rel
}

/// The parts of `dir` behind those of `base`.
pub open spec fn relative(dir: Seq<u8>, base: Seq<u8>) -> Seq<Seq<u8>> {
    parts(dir).subrange(parts(base).len() as int, parts(dir).len() as int)
}

/// The line that a listing shows for an entry of the directory at
/// `rel_dir` from the directory served.
pub open spec fn item_of(entry: &Entry, prefix: Seq<u8>, rel_dir: Seq<u8>) -> ItemView {
    ItemView {
        path_type: entry.path_type,
        name: file_name(entry.path@),
        path: link(prefix, joined(rel_dir, entry.path@)),
    }
}

/// The line that leads back to the parent directory.
pub open spec fn parent_item(prefix: Seq<u8>, rel: Seq<Seq<u8>>) -> ItemView {
    ItemView {
        path_type: PathType::Dir,
        name: seq![DOT, DOT],
        path: link(prefix, glue(rel.drop_last())),
    }
}

/// The lines for the entries that are shown, in the order of the entries.
pub open spec fn items_of(
    entries: Seq<Entry>,
    show_all: bool,
    with_ignore: bool,
    prefix: Seq<u8>,
    rel_dir: Seq<u8>,
) -> Seq<ItemView>
    decreases entries.len(),
{
    if entries.len() == 0 {
        Seq::empty()
    } else if shown(&entries.last(), show_all, with_ignore) {
        items_of(entries.drop_last(), show_all, with_ignore, prefix, rel_dir).push(
            item_of(&entries.last(), prefix, rel_dir),
        )
    } else {
        items_of(entries.drop_last(), show_all, with_ignore, prefix, rel_dir)
    }
}

/// The lines of the listing of `dir`: one for each entry that is shown,
/// and one that leads back to the parent unless `dir` is the directory
/// served; all of them in the order of a listing.
pub open spec fn listed(
    dir: Seq<u8>,
    base: Seq<u8>,
    entries: Seq<Entry>,
    show_all: bool,
    with_ignore: bool,
    prefix: Seq<u8>,
) -> Seq<ItemView> {
    let rel = relative(dir, base);
    let items = items_of(entries, show_all, with_ignore, prefix, glue(rel));
    listing_order(
        if rel.len() == 0 {
            items
        } else {
            seq![parent_item(prefix, rel)] + items
        },
    )
}

/// The breadcrumbs from the directory served to `dir`: the first bears
/// the name of the directory served and leads to the path prefix and a
/// slash; each one after it bears the name of one more part of the way and
/// leads to all of the way so far.
pub open spec fn crumbs(dir: Seq<u8>, base: Seq<u8>, prefix: Seq<u8>) -> Seq<(Seq<u8>, Seq<u8>)> {
    let rel = relative(dir, base);
    Seq::new(
        rel.len() + 1,
        |i: int|
            if i == 0 {
                (file_name(base), prefix + seq![SLASH])
            } else {
                (rel[i - 1], link(prefix, glue(rel.subrange(0, i))))
            },
    )
}

/// The entries of the archive of a directory: the entries that are shown,
/// in the order of the walk, each by its path from the directory.
pub open spec fn archived(entries: Seq<Entry>, show_all: bool, with_ignore: bool) -> Seq<
    (Seq<u8>, bool),
>
    decreases entries.len(),
{
    if entries.len() == 0 {
        Seq::empty()
    } else if shown(&entries.last(), show_all, with_ignore) {
        archived(entries.drop_last(), show_all, with_ignore).push(
            (entries.last().path@, leads_to_dir(entries.last().path_type)),
        )
    } else {
        archived(entries.drop_last(), show_all, with_ignore)
    }
}

/// Whether a path of this type is a directory or leads to one.
pub open spec fn leads_to_dir(path_type: PathType) -> bool {
    path_type == PathType::Dir || path_type == PathType::SymlinkDir
}

/// How the range from `first` to `last`, both inclusive, of a file of
/// `file_len` bytes is read: from `first`, at most as many bytes as the
/// range is long, of which the file holds what lies before its end.
pub open spec fn range_body(file_len: u64, first: u64, last: u64) -> RangeBody {
    RangeBody {
        start: first,
        take: if last - first == u64::MAX {
            u64::MAX
        } else {
            (last - first + 1) as u64
        },
        size: if first >= file_len {
            0
        } else if last < file_len {
            (last - first + 1) as u64
        } else {
            (file_len - first) as u64
        },
    }
}

fn is_shown(entry: &Entry, show_all: bool, with_ignore: bool) -> (r: bool)
    ensures
        r == shown(entry, show_all, with_ignore),
{
    let path = entry.path.as_slice();
    crate::extensions::path_components(path).len() > 0 && (show_all
        || !path.is_relatively_hidden()) && !(with_ignore && entry.ignored)
}

/// The breadcrumbs that lead from the directory served to `dir_path`.
pub fn create_breadcrumbs(dir_path: &[u8], base_path: &[u8], prefix: &[u8]) -> (r: Vec<Breadcrumb>)
    requires
        under(dir_path@, base_path@),
    ensures
        r@.len() == crumbs(dir_path@, base_path@, prefix@).len(),
        forall|i: int|
            0 <= i < r@.len() ==> (#[trigger] r@[i].name@, r@[i].path@) == crumbs(
                dir_path@,
                base_path@,
                prefix@,
            )[i],
{
    let ghost rel = relative(dir_path@, base_path@);
    let ghost want = crumbs(dir_path@, base_path@, prefix@);
    let all = path_parts(dir_path);
    let skip = path_parts(base_path).len();
    let mut out: Vec<Breadcrumb> = Vec::new();
    let mut way = to_vec(prefix);
    way.push(SLASH);
    out.push(Breadcrumb { name: to_vec(base_path.filename_str()), path: to_vec(way.as_slice()) });
    let mut i: usize = skip;
    while i < all.len()
        invariant
            skip <= i <= all@.len(),
            skip == parts(base_path@).len(),
            all@.len() == parts(dir_path@).len(),
            forall|k: int| 0 <= k < all@.len() ==> (#[trigger] all@[k])@ == parts(dir_path@)[k],
            rel == relative(dir_path@, base_path@),
            want == crumbs(dir_path@, base_path@, prefix@),
            out@.len() == i - skip + 1,
            forall|k: int| 0 <= k < out@.len() ==> (#[trigger] out@[k].name@, out@[k].path@) == want[k],
            way@ == (if i == skip {
                prefix@ + seq![SLASH]
            } else {
                link(prefix@, glue(rel.subrange(0, i - skip)))
            }),
        decreases all@.len() - i,
    {
        let part = all[i];
        proof {
            let n = i - skip;
            let upto = rel.subrange(0, n + 1);
            assert(rel[n] == part@);
            assert(upto.last() == part@);
            assert(upto.drop_last() =~= rel.subrange(0, n));
            if n == 0 {
                assert(upto.len() == 1);
                assert(upto[0] == part@);
                assert(glue(upto) == part@);
            } else {
                assert(glue(upto) == glue(rel.subrange(0, n)) + seq![SLASH] + part@);
            }
        }
        if i > skip {
            way.push(SLASH);
        }
        append(&mut way, part);
        proof {
            let n = i - skip;
            assert(way@ =~= link(prefix@, glue(rel.subrange(0, n + 1))));
        }
        out.push(Breadcrumb { name: to_vec(part), path: to_vec(way.as_slice()) });
        i += 1;
    }
    out
}

/// Puts together what the page of a directory shows.
///
/// * `dir_path` - the directory to list
/// * `base_path` - the directory served, which every link starts from
/// * `entries` - what a walk of `dir_path` found, one level deep
/// * `show_all` - whether hidden entries are shown
/// * `with_ignore` - whether the gitignore rules count
/// * `path_prefix` - what every link begins with, if anything
///
/// A directory that does not lie under the directory served cannot be
/// listed.
pub fn send_dir(
    dir_path: &[u8],
    base_path: &[u8],
    entries: &Vec<Entry>,
    show_all: bool,
    with_ignore: bool,
    path_prefix: Option<&[u8]>,
) -> (r: Result<Listing, SendError>)
    ensures
        !under(dir_path@, base_path@) ==> r == Err::<Listing, SendError>(SendError::InvalidInput),
        under(dir_path@, base_path@) ==> r is Ok && ({
            let listing = r->Ok_0;
            let prefix = match path_prefix {
                Some(p) => p@,
                None => Seq::empty(),
            };
            &&& listing.dir_name@ == file_name(dir_path@)
            &&& views(listing.files@) == listed(
                dir_path@,
                base_path@,
                entries@,
                show_all,
                with_ignore,
                prefix,
            )
            &&& listing.breadcrumbs@.len() == crumbs(dir_path@, base_path@, prefix).len()
            &&& forall|i: int|
                0 <= i < listing.breadcrumbs@.len() ==> (
                    #[trigger] listing.breadcrumbs@[i].name@,
                    listing.breadcrumbs@[i].path@,
                ) == crumbs(dir_path@, base_path@, prefix)[i]
        }),
{
    if !starts_with_path(dir_path, base_path) {
        return Err(SendError::InvalidInput);
    }
    let empty: Vec<u8> = Vec::new();
    let prefix: &[u8] = match path_prefix {
        Some(p) => p,
        None => empty.as_slice(),
    };
    let breadcrumbs = create_breadcrumbs(dir_path, base_path, prefix);
    let all = path_parts(dir_path);
    let skip = path_parts(base_path).len();
    let ghost rel = relative(dir_path@, base_path@);
    let rel_dir = crate::paths::glue_parts(&all, skip);
    proof {
        assert(Seq::new((all@.len() - skip) as nat, |k: int| all@[skip + k]@) =~= rel);
    }
    let mut files: Vec<Item> = Vec::new();
    if all.len() > skip {
        let up = crate::paths::glue_parts_until(&all, skip, all.len() - 1);
        proof {
            assert(Seq::new((all@.len() - 1 - skip) as nat, |k: int| all@[skip + k]@)
                =~= rel.drop_last());
        }
        let mut path = to_vec(prefix);
        path.push(SLASH);
        append(&mut path, up.as_slice());
        let mut name: Vec<u8> = Vec::new();
        name.push(DOT);
        name.push(DOT);
        assert(name@ =~= seq![DOT, DOT]);
        assert(path@ =~= link(prefix@, glue(rel.drop_last())));
        let parent = Item { path_type: PathType::Dir, name, path };
        assert(parent@ == parent_item(prefix@, rel));
        files.push(parent);
        assert(files@[0]@ == parent_item(prefix@, rel));
    }
    let ghost head = views(files@);
    proof {
        if rel.len() == 0 {
            assert(head =~= Seq::<ItemView>::empty());
        } else {
            assert(head =~= seq![parent_item(prefix@, rel)]);
        }
        assert(entries@.subrange(0, 0) =~= Seq::<Entry>::empty());
        assert(views(files@) =~= head + items_of(
            entries@.subrange(0, 0),
            show_all,
            with_ignore,
            prefix@,
            rel_dir@,
        ));
    }
    let mut i: usize = 0;
    while i < entries.len()
        invariant
            i <= entries@.len(),
            views(files@) == head + items_of(
                entries@.subrange(0, i as int),
                show_all,
                with_ignore,
                prefix@,
                rel_dir@,
            ),
        decreases entries@.len() - i,
    {
        let entry = &entries[i];
        let ghost before = views(files@);
        proof {
            let next = entries@.subrange(0, i + 1);
            assert(next.drop_last() =~= entries@.subrange(0, i as int));
            assert(next.last() == entries@[i as int]);
        }
        if is_shown(entry, show_all, with_ignore) {
            let mut path = to_vec(prefix);
            path.push(SLASH);
            let rel_path = join(rel_dir.as_slice(), entry.path.as_slice());
            append(&mut path, rel_path.as_slice());
            assert(path@ =~= link(prefix@, joined(rel_dir@, entry.path@)));
            let item = Item {
                path_type: entry.path_type,
                name: to_vec(entry.path.as_slice().filename_str()),
                path,
            };
            assert(item@ == item_of(entry, prefix@, rel_dir@));
            files.push(item);
            proof {
                assert(views(files@) =~= before.push(item@));
                assert(views(files@) =~= head + items_of(
                    entries@.subrange(0, i + 1),
                    show_all,
                    with_ignore,
                    prefix@,
                    rel_dir@,
                ));
            }
        }
        i += 1;
    }
    proof {
        assert(entries@.subrange(0, i as int) =~= entries@);
        if rel.len() == 0 {
            assert(head + items_of(entries@, show_all, with_ignore, prefix@, rel_dir@)
                =~= items_of(entries@, show_all, with_ignore, prefix@, rel_dir@));
        }
    }
    let files = sort_items(files);
    Ok(Listing { dir_name: to_vec(dir_path.filename_str()), files, breadcrumbs })
}

/// Says what goes into the archive of a directory, given what a walk of
/// it found at every depth: each entry that is shown, by its path from the
/// directory, as a directory or as a file.  Entries are stored as they
/// are, without compression.
pub fn send_dir_as_zip(entries: &Vec<Entry>, show_all: bool, with_ignore: bool) -> (r: Vec<ZipEntry>)
    ensures
        r@.len() == archived(entries@, show_all, with_ignore).len(),
        forall|i: int|
            0 <= i < r@.len() ==> (#[trigger] r@[i].name@, r@[i].is_dir) == archived(
                entries@,
                show_all,
                with_ignore,
            )[i],
{
    let mut out: Vec<ZipEntry> = Vec::new();
    let mut i: usize = 0;
    proof {
        assert(entries@.subrange(0, 0) =~= Seq::<Entry>::empty());
    }
    while i < entries.len()
        invariant
            i <= entries@.len(),
            out@.len() == archived(entries@.subrange(0, i as int), show_all, with_ignore).len(),
            forall|k: int|
                0 <= k < out@.len() ==> (#[trigger] out@[k].name@, out@[k].is_dir) == archived(
                    entries@.subrange(0, i as int),
                    show_all,
                    with_ignore,
                )[k],
        decreases entries@.len() - i,
    {
        let entry = &entries[i];
        proof {
            let next = entries@.subrange(0, i + 1);
            assert(next.drop_last() =~= entries@.subrange(0, i as int));
            assert(next.last() == entries@[i as int]);
        }
        if is_shown(entry, show_all, with_ignore) {
            let is_dir = match entry.path_type {
                PathType::Dir => true,
                PathType::SymlinkDir => true,
                _ => false,
            };
            out.push(ZipEntry { name: to_vec(entry.path.as_slice()), is_dir });
        }
        i += 1;
    }
    proof {
        assert(entries@.subrange(0, i as int) =~= entries@);
    }
    out
}

/// Says how the bytes from `range.0` to `range.1`, both inclusive, of a
/// file of `file_len` bytes are read.  A range whose first position lies
/// behind its last is refused.
pub fn send_file_with_range(file_len: u64, range: (u64, u64)) -> (r: Result<RangeBody, SendError>)
    ensures
        r == (if range.1 < range.0 {
            Err::<RangeBody, SendError>(SendError::InvalidInput)
        } else {
            Ok::<RangeBody, SendError>(range_body(file_len, range.0, range.1))
        }),
{
    let (start, end) = range;
    if end < start {
        return Err(SendError::InvalidInput);
    }
    let take = (end - start).saturating_add(1);
    let size = if start >= file_len {
        0
    } else if end < file_len {
        end - start + 1
    } else {
        file_len - start
    };
    Ok(RangeBody { start, take, size })
}

/// A file on its way out, piece by piece: how many bytes may still be
/// handed out, `None` where the file goes out to its end.
#[derive(Debug, Clone, Copy, PartialEq, Eq)]
pub struct FileStream {
    pub remaining: Option<u64>,
}

impl FileStream {
    /// How many bytes the next read may ask for: a buffer full, or what
    /// is left of the bytes to hand out where that is less.
    pub open spec fn room(&self) -> usize {
        match self.remaining {
            Some(n) => if n < BUFFER_SIZE {
                n as usize
            } else {
                BUFFER_SIZE
            },
            None => BUFFER_SIZE,
        }
    }

    /// A stream of a file from where it stands to its end.
    pub fn whole() -> (r: FileStream)
        ensures
            r.remaining is None,
    {
        FileStream { remaining: None }
    }

    /// A stream of no more than `take` bytes.
    pub fn limited(take: u64) -> (r: FileStream)
        ensures
            r.remaining == Some(take),
    {
        FileStream { remaining: Some(take) }
    }

    /// How many bytes to ask the file for next.
    pub fn want(&self) -> (r: usize)
        ensures
            r == self.room(),
    {
        match self.remaining {
            Some(n) => {
                if n < BUFFER_SIZE as u64 {
                    n as usize
                } else {
                    BUFFER_SIZE
                }
            },
            None => BUFFER_SIZE,
        }
    }

    /// Takes what a read of [`want`](FileStream::want) bytes gave and
    /// says what the stream yields: the number of bytes read as the next
    /// piece, the end of the stream where nothing was read, or the error
    /// of the read.  What was read comes off the bytes that may still be
    /// handed out.
    pub fn poll_next(&mut self, read: Result<usize, SendError>) -> (r: Option<
        Result<usize, SendError>,
    >)
        ensures
            r == (match read {
                Ok(n) => if n == 0 {
                    None
                } else {
                    Some(Ok(n))
                },
                Err(e) => Some(Err(e)),
            }),
            final(self).remaining == (match (read, old(self).remaining) {
                (Ok(n), Some(left)) => Some(
                    if n <= left {
                        (left - n) as u64
                    } else {
                        0
                    },
                ),
                _ => old(self).remaining,
            }),
    {
        match read {
            Ok(n) => {
                match self.remaining {
                    Some(left) => {
                        self.remaining = Some(left.saturating_sub(n as u64));
                    },
                    None => {},
                }
                if n == 0 {
                    None
                } else {
                    Some(Ok(n))
                }
            },
            Err(e) => Some(Err(e)),
        }
    }
}

/// Taking one entry out of a walk takes its line out of the lines, if it
/// has one, and leaves the others.
proof fn lemma_items_remove(
    entries: Seq<Entry>,
    j: int,
    show_all: bool,
    with_ignore: bool,
    prefix: Seq<u8>,
    rel_dir: Seq<u8>,
)
    requires
        0 <= j < entries.len(),
    ensures
        items_of(entries, show_all, with_ignore, prefix, rel_dir).to_multiset() == (if shown(
            &entries[j],
            show_all,
            with_ignore,
        ) {
            items_of(
                entries.remove(j),
                show_all,
                with_ignore,
                prefix,
                rel_dir,
            ).to_multiset().insert(item_of(&entries[j], prefix, rel_dir))
        } else {
            items_of(entries.remove(j), show_all, with_ignore, prefix, rel_dir).to_multiset()
        }),
    decreases entries.len(),
{
    broadcast use vstd::multiset::group_multiset_axioms;

    let last = entries.last();
    let front = entries.drop_last();
    let front_items = items_of(front, show_all, with_ignore, prefix, rel_dir);
    to_multiset_build(front_items, item_of(&last, prefix, rel_dir));
    if j == entries.len() - 1 {
        assert(entries.remove(j) =~= front);
    } else {
        lemma_items_remove(front, j, show_all, with_ignore, prefix, rel_dir);
        let without = entries.remove(j);
        assert(without.drop_last() =~= front.remove(j));
        assert(without.last() == last);
        assert(front[j] == entries[j]);
        let without_front = items_of(front.remove(j), show_all, with_ignore, prefix, rel_dir);
        to_multiset_build(without_front, item_of(&last, prefix, rel_dir));
        if shown(&last, show_all, with_ignore) {
            if shown(&entries[j], show_all, with_ignore) {
                assert(front_items.to_multiset().insert(item_of(&last, prefix, rel_dir))
                    =~= without_front.to_multiset().insert(
                    item_of(&last, prefix, rel_dir),
                ).insert(item_of(&entries[j], prefix, rel_dir)));
            }
        }
    }
}

/// The lines of a listing do not depend on the order of the walk: two
/// walks that found the same entries give the same lines, each as often.
pub proof fn lemma_items_of_any_order(
    entries: Seq<Entry>,
    others: Seq<Entry>,
    show_all: bool,
    with_ignore: bool,
    prefix: Seq<u8>,
    rel_dir: Seq<u8>,
)
    requires
        entries.to_multiset() == others.to_multiset(),
    ensures
        items_of(entries, show_all, with_ignore, prefix, rel_dir).to_multiset() == items_of(
            others,
            show_all,
            with_ignore,
            prefix,
            rel_dir,
        ).to_multiset(),
    decreases entries.len(),
{
    broadcast use vstd::multiset::group_multiset_axioms;

    to_multiset_len(entries);
    to_multiset_len(others);
    if entries.len() == 0 {
        assert(others.len() == 0);
        assert(entries =~= others);
    } else {
        let last = entries.len() - 1;
        let x = entries[last];
        to_multiset_contains(entries, x);
        to_multiset_contains(others, x);
        assert(entries.contains(x));
        let j = choose|j: int| 0 <= j < others.len() && others[j] == x;
        lemma_items_remove(entries, last, show_all, with_ignore, prefix, rel_dir);
        lemma_items_remove(others, j, show_all, with_ignore, prefix, rel_dir);
        to_multiset_remove(entries, last);
        to_multiset_remove(others, j);
        lemma_items_of_any_order(
            entries.remove(last),
            others.remove(j),
            show_all,
            with_ignore,
            prefix,
            rel_dir,
        );
    }
}

/// A listing is stable: whichever order the file system hands the entries
/// of a directory out in, the listing of the directory is the same,
/// line for line.
pub proof fn lemma_listing_stable(
    dir: Seq<u8>,
    base: Seq<u8>,
    entries: Seq<Entry>,
    others: Seq<Entry>,
    show_all: bool,
    with_ignore: bool,
    prefix: Seq<u8>,
)
    requires
        entries.to_multiset() == others.to_multiset(),
    ensures
        listed(dir, base, entries, show_all, with_ignore, prefix) == listed(
            dir,
            base,
            others,
            show_all,
            with_ignore,
            prefix,
        ),
{
    let rel = relative(dir, base);
    let a = items_of(entries, show_all, with_ignore, prefix, glue(rel));
    let b = items_of(others, show_all, with_ignore, prefix, glue(rel));
    lemma_items_of_any_order(entries, others, show_all, with_ignore, prefix, glue(rel));
    if rel.len() == 0 {
        lemma_listing_order_unique(a, b);
    } else {
        let up = parent_item(prefix, rel);
        assert(seq![up] + a =~= a.insert(0, up));
        assert(seq![up] + b =~= b.insert(0, up));
        to_multiset_insert(a, 0, up);
        to_multiset_insert(b, 0, up);
        lemma_listing_order_unique(seq![up] + a, seq![up] + b);
    }
}

/// An archive holds what the listing shows: the entries that go into the
/// archive of a directory are those that its listing has a line for, one
/// for one and in the order of the walk.
pub proof fn lemma_archive_matches_listing(
    entries: Seq<Entry>,
    show_all: bool,
    with_ignore: bool,
    prefix: Seq<u8>,
    rel_dir: Seq<u8>,
)
    ensures
        archived(entries, show_all, with_ignore).len() == items_of(
            entries,
            show_all,
            with_ignore,
            prefix,
            rel_dir,
        ).len(),
        forall|i: int|
            0 <= i < archived(entries, show_all, with_ignore).len() ==> ({
                let stored = #[trigger] archived(entries, show_all, with_ignore)[i];
                let line = items_of(entries, show_all, with_ignore, prefix, rel_dir)[i];
                &&& line.name == file_name(stored.0)
                &&& line.path == link(prefix, joined(rel_dir, stored.0))
                &&& leads_to_dir(line.path_type) == stored.1
            }),
    decreases entries.len(),
{
    if entries.len() > 0 {
        lemma_archive_matches_listing(entries.drop_last(), show_all, with_ignore, prefix, rel_dir);
    }
}

} // verus!
