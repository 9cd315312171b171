//! What the server asks of a path, a media type and a point in time.
//!
//! Paths are byte strings with `/` between their components, as on POSIX.

use vstd::prelude::*;
use vstd::string::*;
use vstd::utf8::valid_utf8;
use crate::text::{bytes_eq, find_byte, find_from, split, split_bytes, to_vec, DOT, PLUS, SLASH};

verus! {

/// Tells a file from a directory, and either from a symbolic link to one.
/// The order of the variants is the order in which a listing shows them.
#[derive(Debug, Clone, Copy, PartialEq, Eq, PartialOrd, Ord, Structural)]
pub enum PathType {
    Dir,
    SymlinkDir,
    File,
    SymlinkFile,
}

impl PathType {
    /// The place of the variant in the order of a listing.
    pub open spec fn rank(self) -> int {
        match self {
            PathType::Dir => 0,
            PathType::SymlinkDir => 1,
            PathType::File => 2,
            PathType::SymlinkFile => 3,
        }
    }

    /// The type of a path, given whether the path itself is a symbolic link
    /// and whether what it leads to is a directory.
    pub open spec fn classify(is_symlink: bool, is_dir: bool) -> PathType {
        if is_symlink {
            if is_dir {
                PathType::SymlinkDir
            } else {
                PathType::SymlinkFile
            }
        } else {
            if is_dir {
                PathType::Dir
            } else {
                PathType::File
            }
        }
    }

    /// The type of a path, given whether it is a symbolic link and whether it
    /// leads to a directory.
    pub fn of(is_symlink: bool, is_dir: bool) -> (r: PathType)
        ensures
            r == PathType::classify(is_symlink, is_dir),
    {
        match (is_symlink, is_dir) {
            (true, true) => PathType::SymlinkDir,
            (false, true) => PathType::Dir,
            (true, false) => PathType::SymlinkFile,
            (false, false) => PathType::File,
        }
    }

    /// The place of the variant in the order of a listing.
    pub fn position(self) -> (r: u8)
        ensures
            r == self.rank(),
    {
        match self {
            PathType::Dir => 0,
            PathType::SymlinkDir => 1,
            PathType::File => 2,
            PathType::SymlinkFile => 3,
        }
    }
}

/// A piece between two slashes that is no component: nothing at all, or a
/// single dot.
pub open spec fn skipped(piece: Seq<u8>) -> bool {
    piece.len() == 0 || piece == seq![DOT]
}

/// The double dot that stands for the parent directory.
pub open spec fn is_parent(component: Seq<u8>) -> bool {
    component == seq![DOT, DOT]
}

/// The components among the pieces of a path.
pub open spec fn components_of(pieces: Seq<Seq<u8>>) -> Seq<Seq<u8>>
    decreases pieces.len(),
{
    if pieces.len() == 0 {
        Seq::empty()
    } else if skipped(pieces.last()) {
        components_of(pieces.drop_last())
    } else {
        components_of(pieces.drop_last()).push(pieces.last())
    }
}

/// The components of a path: what stands between its slashes, but for
/// empty pieces and single dots.
pub open spec fn components(path: Seq<u8>) -> Seq<Seq<u8>> {
    components_of(split(path, SLASH))
}

/// Whether a path starts at the root.
pub open spec fn is_absolute(path: Seq<u8>) -> bool {
    path.len() > 0 && path[0] == SLASH
}

/// A component that hides what it names: it begins with a dot and is not
/// the parent directory.
pub open spec fn hidden_component(component: Seq<u8>) -> bool {
    component.len() > 0 && component[0] == DOT && !is_parent(component)
}

/// A path is relatively hidden when any of its components is hidden,
/// whether or not the last one is.
pub open spec fn relatively_hidden(path: Seq<u8>) -> bool {
    exists|i: int|
        0 <= i < components(path).len() && hidden_component(#[trigger] components(path)[i])
}

/// The last component of a path, unless that is the parent directory.
pub open spec fn last_name(path: Seq<u8>) -> Option<Seq<u8>> {
    if components(path).len() > 0 && !is_parent(components(path).last()) {
        Some(components(path).last())
    } else {
        None
    }
}

/// The file name of a path as text: its last component where that is a
/// name in UTF-8, and nothing otherwise.
pub open spec fn file_name(path: Seq<u8>) -> Seq<u8> {
    match last_name(path) {
        Some(name) => if valid_utf8(name) {
            name
        } else {
            Seq::empty()
        },
        None => Seq::empty(),
    }
}

/// Whether the file name of a path begins with a dot.
pub open spec fn hidden_name(path: Seq<u8>) -> bool {
    file_name(path).len() > 0 && file_name(path)[0] == DOT
}

/// The components of a path, in order.
pub fn path_components<'a>(path: &'a [u8]) -> (r: Vec<&'a [u8]>)
    ensures
        r@.len() == components(path@).len(),
        forall|i: int| 0 <= i < r@.len() ==> (#[trigger] r@[i])@ == components(path@)[i],
        forall|i: int| 0 <= i < r@.len() ==> (#[trigger] r@[i])@.len() > 0,
{
    let pieces = split_bytes(path, SLASH);
    let ghost all = split(path@, SLASH);
    let mut out: Vec<&'a [u8]> = Vec::new();
    let mut i: usize = 0;
    proof {
        assert(all.subrange(0, 0) =~= Seq::<Seq<u8>>::empty());
    }
    while i < pieces.len()
        invariant
            i <= pieces@.len(),
            pieces@.len() == all.len(),
            forall|k: int| 0 <= k < pieces@.len() ==> (#[trigger] pieces@[k])@ == all[k],
            out@.len() == components_of(all.subrange(0, i as int)).len(),
            forall|k: int|
                0 <= k < out@.len() ==> (#[trigger] out@[k])@ == components_of(
                    all.subrange(0, i as int),
                )[k],
            forall|k: int| 0 <= k < out@.len() ==> (#[trigger] out@[k])@.len() > 0,
        decreases pieces@.len() - i,
    {
        let piece = pieces[i];
        proof {
            let next = all.subrange(0, i + 1);
            assert(next.drop_last() =~= all.subrange(0, i as int));
            assert(next.last() == piece@);
            if piece@.len() == 1 && piece@[0] == DOT {
                assert(piece@ =~= seq![DOT]);
            }
        }
        if !(piece.len() == 0 || (piece.len() == 1 && piece[0] == DOT)) {
            out.push(piece);
        }
        i += 1;
    }
    proof {
        assert(all.subrange(0, i as int) =~= all);
    }
    out
}

fn is_parent_component(component: &[u8]) -> (r: bool)
    ensures
        r == is_parent(component@),
{
    let r = component.len() == 2 && component[0] == DOT && component[1] == DOT;
    proof {
        if r {
            assert(component@ =~= seq![DOT, DOT]);
        }
    }
    r
}

/// Whether a run of bytes is well-formed UTF-8, as `std::str::from_utf8`
/// finds it.  The contract takes the standard library at its word that it
/// succeeds on well-formed input and on no other.
#[verifier::external_body]
fn is_utf8(bytes: &[u8]) -> (r: bool)
    ensures
        r == valid_utf8(bytes@),
{
    std::str::from_utf8(bytes).is_ok()
}

/// The media type that `mime_guess` finds for a path, the text of it.
pub uninterp spec fn guessed_media_type(path: Seq<u8>) -> Option<Seq<u8>>;

/// Asks `mime_guess::from_path` for the first media type that goes with
/// the extension of the path.  The guess looks at the path's text alone
/// and touches no file, so equal paths get equal answers; what the answer
/// is for a given extension is the table's business and not stated here.
#[verifier::external_body]
fn guess_media_type(path: &[u8]) -> (r: Option<Vec<u8>>)
    ensures
        match r {
            Some(text) => guessed_media_type(path@) == Some(text@),
            None => guessed_media_type(path@) is None,
        },
{
    let text = String::from_utf8_lossy(path);
    mime_guess::from_path(text.as_ref()).first().map(|m| m.as_ref().as_bytes().to_vec())
}

/// A media type: `type/subtype`, with `+suffix` where there is one, and the
/// character set where one is stated.
#[derive(Debug, Clone, PartialEq, Eq)]
pub struct Mime {
    /// `type/subtype` or `type/subtype+suffix`.
    pub essence: Vec<u8>,
    pub charset: Option<&'static str>,
}

/// The character set that text is assumed to be in.
pub const UTF_8: &'static str = "utf-8";

impl View for Mime {
    type V = (Seq<u8>, Option<&'static str>);

    open spec fn view(&self) -> (Seq<u8>, Option<&'static str>) {
        (self.essence@, self.charset)
    }
}

/// The type of a media type: what stands before the slash.
pub open spec fn type_part(essence: Seq<u8>) -> Seq<u8> {
    essence.subrange(0, find_from(essence, SLASH, 0))
}

/// Where the subtype of a media type ends: at the first plus sign behind
/// the slash, or at the end.
pub open spec fn subtype_end(essence: Seq<u8>) -> int {
    find_from(essence, PLUS, find_from(essence, SLASH, 0) + 1)
}

/// The subtype of a media type: what stands between the slash and the
/// suffix.
pub open spec fn subtype_part(essence: Seq<u8>) -> Seq<u8> {
    if find_from(essence, SLASH, 0) < essence.len() {
        essence.subrange(find_from(essence, SLASH, 0) + 1, subtype_end(essence))
    } else {
        Seq::empty()
    }
}

/// The suffix of a media type: what stands behind the plus sign.
pub open spec fn suffix_part(essence: Seq<u8>) -> Option<Seq<u8>> {
    if subtype_end(essence) < essence.len() {
        Some(essence.subrange(subtype_end(essence) + 1, essence.len() as int))
    } else {
        None
    }
}

/// Formats that are compressed already: video, audio, and the images GIF,
/// JPEG and PNG.
pub open spec fn compressed_format(essence: Seq<u8>) -> bool {
    ||| type_part(essence) == "video".spec_bytes()
    ||| type_part(essence) == "audio".spec_bytes()
    ||| subtype_part(essence) == "gif".spec_bytes()
    ||| subtype_part(essence) == "jpeg".spec_bytes()
    ||| subtype_part(essence) == "png".spec_bytes()
}

/// Video and audio.
pub open spec fn media(essence: Seq<u8>) -> bool {
    type_part(essence) == "video".spec_bytes() || type_part(essence) == "audio".spec_bytes()
}

/// Formats that hold text: every `text` type, the subtypes XML, JavaScript
/// and JSON, and whatever carries the suffix XML or JSON.
pub open spec fn text_like(essence: Seq<u8>) -> bool {
    ||| type_part(essence) == "text".spec_bytes()
    ||| subtype_part(essence) == "xml".spec_bytes()
    ||| subtype_part(essence) == "javascript".spec_bytes()
    ||| subtype_part(essence) == "json".spec_bytes()
    ||| suffix_part(essence) == Some("xml".spec_bytes())
    ||| suffix_part(essence) == Some("json".spec_bytes())
}

/// What a media type looks like in a header field: `type/subtype`, and
/// `; charset=` with the character set behind it where one is stated.
pub open spec fn mime_text(mime: (Seq<u8>, Option<&'static str>)) -> Seq<u8> {
    match mime.1 {
        Some(charset) => mime.0 + "; charset=".spec_bytes() + charset.spec_bytes(),
        None => mime.0,
    }
}

impl Mime {
    /// What the media type looks like in a header field.
    pub open spec fn wire(&self) -> Seq<u8> {
        mime_text(self@)
    }

    /// A media type without a character set.
    pub fn new(essence: &[u8]) -> (r: Mime)
        ensures
            r@ == (essence@, None::<&'static str>),
    {
        Mime { essence: to_vec(essence), charset: None }
    }

    /// A media type in UTF-8.
    pub fn utf8(essence: &[u8]) -> (r: Mime)
        ensures
            r@ == (essence@, Some(UTF_8)),
    {
        Mime { essence: to_vec(essence), charset: Some(UTF_8) }
    }

    /// The type: what stands before the slash.
    pub fn type_(&self) -> (r: &[u8])
        ensures
            r@ == type_part(self.essence@),
    {
        let slash = find_byte(self.essence.as_slice(), SLASH, 0);
        vstd::slice::slice_subrange(self.essence.as_slice(), 0, slash)
    }

    /// The subtype: what stands between the slash and the suffix.
    pub fn subtype(&self) -> (r: &[u8])
        ensures
            r@ == subtype_part(self.essence@),
    {
        let text = self.essence.as_slice();
        let slash = find_byte(text, SLASH, 0);
        if slash < text.len() {
            let end = find_byte(text, PLUS, slash + 1);
            vstd::slice::slice_subrange(text, slash + 1, end)
        } else {
            vstd::slice::slice_subrange(text, 0, 0)
        }
    }

    /// The suffix: what stands behind the plus sign, if there is one.
    pub fn suffix(&self) -> (r: Option<&[u8]>)
        ensures
            match r {
                Some(s) => suffix_part(self.essence@) == Some(s@),
                None => suffix_part(self.essence@) is None,
            },
    {
        let text = self.essence.as_slice();
        let slash = find_byte(text, SLASH, 0);
        let end = if slash < text.len() {
            find_byte(text, PLUS, slash + 1)
        } else {
            text.len()
        };
        if end < text.len() {
            Some(vstd::slice::slice_subrange(text, end + 1, text.len()))
        } else {
            None
        }
    }

    /// The header field value that carries this media type.
    pub fn header_value(&self) -> (r: Vec<u8>)
        ensures
            r@ == self.wire(),
    {
        let mut out = to_vec(self.essence.as_slice());
        match self.charset {
            Some(charset) => {
                crate::text::append(&mut out, "; charset=".as_bytes());
                crate::text::append(&mut out, charset.as_bytes());
            },
            None => {},
        }
        out
    }
}

/// What the server asks of a media type.
pub trait MimeExt {
    spec fn essence_text(&self) -> Seq<u8>;

    /// Whether the format is compressed already: `video/*`, `audio/*`,
    /// `*/gif`, `*/jpeg` and `*/png`.
    fn is_compressed_format(&self) -> (r: bool)
        ensures
            r == compressed_format(self.essence_text()),
    ;

    /// Whether the type is `video/*` or `audio/*`.
    fn is_media(&self) -> (r: bool)
        ensures
            r == media(self.essence_text()),
    ;

    /// The character set to assume of a format that holds text.
    fn guess_charset(&self) -> (r: Option<&'static str>)
        ensures
            r == (if text_like(self.essence_text()) {
                Some(UTF_8)
            } else {
                None
            }),
    ;
}

impl MimeExt for Mime {
    open spec fn essence_text(&self) -> Seq<u8> {
        self.essence@
    }

    fn is_compressed_format(&self) -> (r: bool) {
        let t = self.type_();
        let s = self.subtype();
        bytes_eq(t, "video".as_bytes()) || bytes_eq(t, "audio".as_bytes()) || bytes_eq(
            s,
            "gif".as_bytes(),
        ) || bytes_eq(s, "jpeg".as_bytes()) || bytes_eq(s, "png".as_bytes())
    }

    fn is_media(&self) -> (r: bool) {
        let t = self.type_();
        bytes_eq(t, "video".as_bytes()) || bytes_eq(t, "audio".as_bytes())
    }

    fn guess_charset(&self) -> (r: Option<&'static str>) {
        let t = self.type_();
        let s = self.subtype();
        let text = bytes_eq(t, "text".as_bytes()) || bytes_eq(s, "xml".as_bytes()) || bytes_eq(
            s,
            "javascript".as_bytes(),
        ) || bytes_eq(s, "json".as_bytes()) || match self.suffix() {
            Some(x) => bytes_eq(x, "xml".as_bytes()) || bytes_eq(x, "json".as_bytes()),
            None => false,
        };
        if text {
            Some(UTF_8)
        } else {
            None
        }
    }
}

/// What the server asks of a path without looking at the file system.
pub trait PathExt {
    spec fn text(&self) -> Seq<u8>;

    /// The media type that goes with the extension of the path.  No file is
    /// looked at.
    fn mime(&self) -> (r: Option<Mime>)
        ensures
            match r {
                Some(m) => guessed_media_type(self.text()) == Some(m.essence@) && m.charset
                    is None,
                None => guessed_media_type(self.text()) is None,
            },
    ;

    /// Whether any component of the path begins with a dot, the last one or
    /// one before it.
    fn is_relatively_hidden(&self) -> (r: bool)
        ensures
            r == relatively_hidden(self.text()),
    ;

    /// Whether the file name of the path begins with a dot.
    fn is_hidden(&self) -> (r: bool)
        ensures
            r == hidden_name(self.text()),
    ;

    /// The file name of the path: its last component, or nothing where
    /// there is none or it is no text.
    fn filename_str(&self) -> (r: &[u8])
        ensures
            r@ == file_name(self.text()),
    ;
}

impl PathExt for [u8] {
    open spec fn text(&self) -> Seq<u8> {
        self@
    }

    fn mime(&self) -> (r: Option<Mime>) {
        match guess_media_type(self) {
            Some(essence) => Some(Mime { essence, charset: None }),
            None => None,
        }
    }

    fn is_relatively_hidden(&self) -> (r: bool) {
        let parts = path_components(self);
        let mut i: usize = 0;
        while i < parts.len()
            invariant
                i <= parts@.len(),
                parts@.len() == components(self@).len(),
                forall|k: int|
                    0 <= k < parts@.len() ==> (#[trigger] parts@[k])@ == components(self@)[k],
                forall|k: int| 0 <= k < parts@.len() ==> (#[trigger] parts@[k])@.len() > 0,
                forall|k: int| 0 <= k < i ==> !hidden_component(#[trigger] components(self@)[k]),
            decreases parts@.len() - i,
        {
            let part = parts[i];
            assert(part@ == components(self@)[i as int]);
            if part[0] == DOT && !is_parent_component(part) {
                return true;
            }
            i += 1;
        }
        false
    }

    fn is_hidden(&self) -> (r: bool) {
        let name = self.filename_str();
        name.len() > 0 && name[0] == DOT
    }

    fn filename_str(&self) -> (r: &[u8]) {
        let parts = path_components(self);
        let n = parts.len();
        if n == 0 {
            return vstd::slice::slice_subrange(self, 0, 0);
        }
        let last = parts[n - 1];
        assert(last@ == components(self@).last());
        if is_parent_component(last) || !is_utf8(last) {
            vstd::slice::slice_subrange(self, 0, 0)
        } else {
            last
        }
    }
}

/// Whether the file name of a path begins with a dot.
pub fn is_hidden(path: &[u8]) -> (r: bool)
    ensures
        r == hidden_name(path@),
{
    path.is_hidden()
}

/// A point in time as the standard library keeps it.
#[verifier::external_type_specification]
#[verifier::external_body]
pub struct ExSystemTime(std::time::SystemTime);

/// The whole seconds from the epoch to a point in time.
pub uninterp spec fn seconds_since_epoch(time: std::time::SystemTime) -> u64;

/// The whole seconds from the epoch to `time`, by the standard library's
/// `SystemTime::duration_since` and `Duration::as_secs`; a time before the
/// epoch counts as the epoch.  The count goes by the point in time alone.
#[verifier::external_body]
fn secs_since_epoch(time: &std::time::SystemTime) -> (r: u64)
    ensures
        r == seconds_since_epoch(*time),
{
    time.duration_since(std::time::UNIX_EPOCH).unwrap_or_default().as_secs()
}

/// What the server asks of a point in time.
pub trait SystemTimeExt {
    spec fn seconds(&self) -> u64;

    /// The time as a timestamp in whole seconds.
    fn timestamp(&self) -> (r: u64)
        ensures
            r == self.seconds(),
    ;

    /// The time as a timestamp in whole seconds.
    fn timestamp_sec(&self) -> (r: u64)
        ensures
            r == self.seconds(),
    ;
}

impl SystemTimeExt for std::time::SystemTime {
    open spec fn seconds(&self) -> u64 {
        seconds_since_epoch(*self)
    }

    fn timestamp(&self) -> (r: u64) {
        secs_since_epoch(self)
    }

    fn timestamp_sec(&self) -> (r: u64) {
        secs_since_epoch(self)
    }
}

} // verus!
