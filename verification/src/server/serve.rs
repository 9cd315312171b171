//! The request pipeline: from a request and what the file system says about
//! its target to the response.
//!
//! The pipeline itself touches neither the file system nor the network.
//! Its caller does, in between the steps: it looks up what [`Target`]
//! holds, and it produces the body that a [`Step::Send`] asks for.

use core::str::Utf8Error;
use ignore::gitignore::Gitignore;
use vstd::prelude::*;
use vstd::string::*;
use vstd::utf8::valid_utf8;
use crate::cli::args::{leading_slashes, Args};
use crate::extensions::{
    compressed_format, file_name, guessed_media_type, relatively_hidden, text_like, Mime, MimeExt,
    PathExt, UTF_8,
};
use crate::http::conditional_requests::{fresh, is_fresh, is_precondition_failed, precondition_failed};
use crate::http::content_encoding::{negotiate, preferred, Encoding};
use crate::http::headers::{file_tag, ContentRange, EntityTag};
use crate::http::range_requests::{is_range_fresh, is_satisfiable_range, range_fresh, satisfiable};
use crate::paths::{join, joined, starts_with_path, strip_prefix, stripped, under};
use crate::server::res::{
    as_error, as_not_modified, forbidden, internal_server_error, not_found, not_modified,
    precondition_failed as precondition_failed_response, FORBIDDEN, INTERNAL_SERVER_ERROR,
    NOT_FOUND, PRECONDITION_FAILED,
};
use crate::server::{blank, Body, CacheControl, Request, Response, ResponseView};
use crate::text::{append, bytes_eq, to_vec, PERCENT, SLASH};

verus! {

/// The name and version that the server goes by.
pub const SERVER_VERSION: &'static str = "sfz/0.7.1";

/// The value of `Access-Control-Allow-Origin` that lets every origin in.
pub const ALLOW_ANY_ORIGIN: &'static str = "*";

/// The header fields that requests from other origins may carry.
pub const ALLOW_HEADERS: &'static str = "Range, Content-Type, Accept, Origin";

/// The value of `Cross-Origin-Embedder-Policy`.
pub const REQUIRE_CORP: &'static str = "require-corp";

/// The value of `Cross-Origin-Opener-Policy`.
pub const SAME_ORIGIN: &'static str = "same-origin";

/// The value of `Vary` where the body depends on `Accept-Encoding`.
pub const ACCEPT_ENCODING: &'static str = "Accept-Encoding";

/// The value of `Accept-Ranges`: ranges are counted in bytes.
pub const BYTES: &'static str = "bytes";

/// The file that stands for a directory where indexes are rendered.
pub const INDEX: &'static str = "index.html";

/// What a request asks to be done with its target.
#[derive(Debug, Clone, Copy, PartialEq, Eq, Structural)]
pub enum Action {
    DownloadZip,
    ListDir,
    DownloadFile,
}

/// What is wrong with a request beyond repair.
#[derive(Debug, Clone, Copy, PartialEq, Eq, Structural)]
pub enum RequestError {
    /// The path is no UTF-8 once its percent signs are resolved.
    Path,
    /// The query is no ASCII.
    Query,
    /// The query asks for an action that there is not, or for an archive
    /// of a file.
    Action,
}

/// What went wrong producing a body.
#[derive(Debug, Clone, Copy, PartialEq, Eq, Structural)]
pub enum SendError {
    /// A range whose first position lies behind its last.
    InvalidInput,
    /// The file system failed.
    Io,
}

/// The modification time of a file in whole seconds since the epoch, and
/// its size in bytes.
#[derive(Debug, Clone, Copy, PartialEq, Eq)]
pub struct FileMeta {
    pub mtime: u64,
    pub size: u64,
}

/// What the file system says about the path that a request addresses.
#[derive(Debug, Clone, PartialEq, Eq)]
pub struct Target {
    pub path: Vec<u8>,
    pub exists: bool,
    pub is_dir: bool,
    /// The path with every symbolic link resolved, where that can be done.
    pub canonical: Option<Vec<u8>>,
    /// What the metadata say, where they can be read.
    pub meta: Option<FileMeta>,
}

/// What the pipeline has decided.
#[derive(Debug, Clone, PartialEq, Eq)]
pub enum Step {
    /// The response is complete.
    Respond(Response),
    /// The body that the response names is to be produced; what comes of
    /// that goes to [`InnerService::finish`] together with the response.
    Send(Response),
}

/// A step as a value.
pub enum StepView {
    Respond(ResponseView),
    Send(ResponseView),
}

impl View for Step {
    type V = StepView;

    open spec fn view(&self) -> StepView {
        match self {
            Step::Respond(res) => StepView::Respond(res@),
            Step::Send(res) => StepView::Send(res@),
        }
    }
}

/// The gitignore rules of a directory, as `ignore` compiles them.
#[verifier::external_type_specification]
#[verifier::external_body]
pub struct ExGitignore(ignore::gitignore::Gitignore);

/// What the standard library says of bytes that are no UTF-8.
#[verifier::external_type_specification]
#[verifier::external_body]
pub struct ExUtf8Error(core::str::Utf8Error);

/// Whether a set of gitignore rules ignores a path.
pub uninterp spec fn matched_as_ignored(rules: Gitignore, path: Seq<u8>, is_dir: bool) -> bool;

/// The value that a query gives to a name, if it gives one.
pub uninterp spec fn query_value(query: Seq<u8>, name: Seq<u8>) -> Option<Seq<u8>>;

/// Asks `Gitignore::matched` whether the rules ignore the path, which is
/// a directory or not as `is_dir` says.  The match goes by the rules and
/// the text of the path alone; a whitelisted path counts as not ignored.
#[verifier::external_body]
fn gitignore_matched(rules: &Gitignore, path: &[u8], is_dir: bool) -> (r: bool)
    ensures
        r == matched_as_ignored(*rules, path@, is_dir),
{
    let text = String::from_utf8_lossy(path);
    rules.matched(text.as_ref(), is_dir).is_ignore()
}

/// Has `qstring::QString` parse the query and looks the name up in it:
/// the value of the first pair of that name, empty where the pair has
/// none.  The parser cuts its input at single bytes, so the query must be
/// ASCII.
#[verifier::external_body]
fn query_parameter(query: &[u8], name: &str) -> (r: Option<Vec<u8>>)
    requires
        is_ascii_text(query@),
    ensures
        match r {
            Some(value) => query_value(query@, name.spec_bytes()) == Some(value@),
            None => query_value(query@, name.spec_bytes()) is None,
        },
{
    let text = String::from_utf8_lossy(query);
    qstring::QString::from(text.as_ref()).get(name).map(|value| value.as_bytes().to_vec())
}

/// Resolves the percent signs of a path with
/// `percent_encoding::percent_decode` and has the result checked as UTF-8
/// by its `decode_utf8`: the decoded bytes where they are well-formed, and
/// the error otherwise.
#[verifier::external_body]
fn percent_decode_utf8(input: &[u8]) -> (r: Result<Vec<u8>, Utf8Error>)
    ensures
        match r {
            Ok(bytes) => bytes@ == percent_decoded(input@) && valid_utf8(bytes@),
            Err(_) => !valid_utf8(percent_decoded(input@)),
        },
{
    match percent_encoding::percent_decode(input).decode_utf8() {
        Ok(text) => Ok(text.into_owned().into_bytes()),
        Err(e) => Err(e),
    }
}

/// Whether every byte is ASCII.
pub open spec fn is_ascii_text(s: Seq<u8>) -> bool {
    forall|i: int| 0 <= i < s.len() ==> #[trigger] s[i] < 128
}

/// The value of a hexadecimal digit, upper case or lower.
pub open spec fn hex_digit(b: u8) -> Option<u8> {
    if 48 <= b && b <= 57 {
        Some((b - 48) as u8)
    } else if 97 <= b && b <= 102 {
        Some((b - 87) as u8)
    } else if 65 <= b && b <= 70 {
        Some((b - 55) as u8)
    } else {
        None
    }
}

/// A text with its percent signs resolved: a percent sign and the two
/// hexadecimal digits behind it give one byte; a percent sign that no two
/// such digits follow stands for itself.
pub open spec fn percent_decoded(s: Seq<u8>) -> Seq<u8>
    decreases s.len(),
{
    if s.len() == 0 {
        Seq::empty()
    } else if s[0] == PERCENT && s.len() >= 3 && hex_digit(s[1]) is Some && hex_digit(s[2]) is Some {
        seq![(hex_digit(s[1]).unwrap() * 16 + hex_digit(s[2]).unwrap()) as u8] + percent_decoded(
            s.subrange(3, s.len() as int),
        )
    } else {
        seq![s[0]] + percent_decoded(s.subrange(1, s.len() as int))
    }
}

/// A request path without the slash it begins with.
pub open spec fn without_leading_slash(path: Seq<u8>) -> Seq<u8> {
    if path.len() > 0 && path[0] == SLASH {
        path.subrange(1, path.len() as int)
    } else {
        path
    }
}

/// The path prefix as request paths are held against it: without the
/// slashes it begins with.
pub open spec fn bare_prefix(prefix: Seq<u8>) -> Seq<u8> {
    prefix.subrange(leading_slashes(prefix, 0), prefix.len() as int)
}

/// A request path without the path prefix, where one is set: `None`
/// where the path does not lie under the prefix.
pub open spec fn without_prefix(args: &Args, path: Seq<u8>) -> Option<Seq<u8>> {
    match args.path_prefix {
        Some(prefix) => stripped(path, bare_prefix(prefix@)),
        None => Some(path),
    }
}

/// The file that a request path addresses.
///
/// The path loses the slash it begins with and has its percent signs
/// resolved; what comes of that must be UTF-8.  It then loses the path
/// prefix, and `None` is the outcome where it does not lie under it.
/// What is left is joined to the directory served.
pub open spec fn resolved(args: &Args, path: Seq<u8>) -> Result<Option<Seq<u8>>, RequestError> {
    let decoded = percent_decoded(without_leading_slash(path));
    if !valid_utf8(decoded) {
        Err(RequestError::Path)
    } else {
        match without_prefix(args, decoded) {
            Some(rest) => Ok(Some(joined(args.path@, rest))),
            None => Ok(None),
        }
    }
}

/// The path that is served for a file found: the `index.html` in it where
/// it is a directory and the server renders indexes, and the path itself
/// otherwise.
pub open spec fn indexed(args: &Args, path: Seq<u8>, is_dir: bool) -> Seq<u8> {
    if args.render_index && is_dir {
        joined(path, INDEX.spec_bytes())
    } else {
        path
    }
}

/// What is done with a target that the query says nothing about.
pub open spec fn default_action(is_dir: bool) -> Action {
    if is_dir {
        Action::ListDir
    } else {
        Action::DownloadFile
    }
}

/// What a query asks to be done with a target.
///
/// A query without `action` leaves the default.  `action=zip` asks for an
/// archive, which only a directory can give.  Every other value of
/// `action` is an error, and so is a query that is no ASCII.
pub open spec fn chosen_action(query: Option<Seq<u8>>, is_dir: bool) -> Result<
    Action,
    RequestError,
> {
    match query {
        None => Ok(default_action(is_dir)),
        Some(q) => if !is_ascii_text(q) {
            Err(RequestError::Query)
        } else {
            action_of(query_value(q, "action".spec_bytes()), is_dir)
        },
    }
}

/// What the value of `action` asks to be done with a target.
pub open spec fn action_of(value: Option<Seq<u8>>, is_dir: bool) -> Result<Action, RequestError> {
    match value {
        None => Ok(default_action(is_dir)),
        Some(v) => if v == "zip".spec_bytes() && is_dir {
            Ok(Action::DownloadZip)
        } else {
            Err(RequestError::Action)
        },
    }
}

/// The query of a request as a value.
pub open spec fn query_of(req: &Request) -> Option<Seq<u8>> {
    match req.query {
        Some(q) => Some(q@),
        None => None,
    }
}

/// The response as it starts out: the server's name, and the header
/// fields for cross-origin sharing and isolation where they are switched
/// on.
pub open spec fn seeded(args: &Args) -> ResponseView {
    ResponseView {
        server: Some(SERVER_VERSION),
        access_control_allow_origin: if args.cors {
            Some(ALLOW_ANY_ORIGIN)
        } else {
            None
        },
        access_control_allow_headers: if args.cors {
            Some(ALLOW_HEADERS)
        } else {
            None
        },
        cross_origin_embedder_policy: if args.coi {
            Some(REQUIRE_CORP)
        } else {
            None
        },
        cross_origin_opener_policy: if args.coi {
            Some(SAME_ORIGIN)
        } else {
            None
        },
        ..blank()
    }
}

/// A path is hidden from clients when any of its components begins with a
/// dot, unless the server serves everything.
pub open spec fn hidden(args: &Args, path: Seq<u8>) -> bool {
    !args.all && relatively_hidden(path)
}

/// A path is ignored when the gitignore rules say so, unless the server
/// sets them aside.
pub open spec fn ignored(args: &Args, rules: Gitignore, path: Seq<u8>, is_dir: bool) -> bool {
    args.ignore && matched_as_ignored(rules, path, is_dir)
}

/// A target is there for a client when it exists and is neither hidden
/// nor ignored.
pub open spec fn visible(args: &Args, rules: Gitignore, target: &Target) -> bool {
    target.exists && !hidden(args, target.path@) && !ignored(
        args,
        rules,
        target.path@,
        target.is_dir,
    )
}

/// Whether the target, every symbolic link resolved, lies under the
/// directory served.
pub open spec fn within_root(args: &Args, target: &Target) -> bool {
    match target.canonical {
        Some(canonical) => under(canonical@, args.path@),
        None => false,
    }
}

/// A body may be compressed when compression is on, the response is not a
/// part of a file, and the format is not compressed already.
pub open spec fn compressible(compress: bool, status: u16, essence: Seq<u8>) -> bool {
    compress && status != 206 && !compressed_format(essence)
}

/// The media type of a response: HTML for a listing, bytes for an
/// archive, and for a file what its extension suggests, in UTF-8 where
/// that holds text, or plain text where the extension suggests nothing.
pub open spec fn path_mime(path: Seq<u8>, action: Action) -> (Seq<u8>, Option<&'static str>) {
    match action {
        Action::ListDir => ("text/html".spec_bytes(), Some(UTF_8)),
        Action::DownloadZip => ("application/octet-stream".spec_bytes(), None),
        Action::DownloadFile => match guessed_media_type(path) {
            Some(essence) => (
                essence,
                if text_like(essence) {
                    Some(UTF_8)
                } else {
                    None
                },
            ),
            None => ("text/plain".spec_bytes(), Some(UTF_8)),
        },
    }
}

/// The coding that a request asks for: `identity` without
/// `Accept-Encoding`.
pub open spec fn coding(req: &Request) -> Encoding {
    match req.accept_encoding {
        Some(value) => preferred(value@),
        None => Encoding::Identity,
    }
}

/// The header fields that every response with a body of its own ends up
/// with: the coding and `Vary` where the body is compressed,
/// `Accept-Ranges`, and the media type.
pub open spec fn framed(
    args: &Args,
    req: &Request,
    res: ResponseView,
    action: Action,
    path: Seq<u8>,
) -> ResponseView {
    let mime = path_mime(path, action);
    let compressed = compressible(args.compress, res.status, mime.0) && coding(req)
        != Encoding::Identity;
    ResponseView {
        content_encoding: if compressed {
            Some(coding(req))
        } else {
            None
        },
        vary: if compressed {
            Some(ACCEPT_ENCODING)
        } else {
            None
        },
        accept_ranges: Some(BYTES),
        content_type: Some(mime),
        ..res
    }
}

/// `attachment; filename="<name>.zip"`, the name being the file name of
/// the directory.
pub open spec fn disposition(path: Seq<u8>) -> Seq<u8> {
    "attachment; filename=\"".spec_bytes() + file_name(path) + ".zip\"".spec_bytes()
}

/// The answer to a request for a file.
///
/// Metadata that cannot be read end the request with 500.  With them the
/// validators decide first: 412 where a precondition fails, then 304
/// where the client's copy is fresh.  Otherwise the file goes out: the
/// part that `Range` asks for with 206, where the range applies and
/// selects bytes of the file, and the whole file with 200 where it does
/// not; a range that selects nothing is never an error.
pub open spec fn file_answer(args: &Args, req: &Request, target: &Target) -> StepView {
    let cached = ResponseView {
        cache_control: Some(CacheControl { public: true, max_age: args.cache }),
        ..seeded(args)
    };
    match target.meta {
        None => StepView::Respond(as_error(blank(), 500, INTERNAL_SERVER_ERROR)),
        Some(meta) => {
            let etag = (false, file_tag(meta.mtime, meta.size));
            let validated = ResponseView {
                last_modified: Some(meta.mtime),
                etag: Some(etag),
                ..cached
            };
            let part = if range_fresh(req, etag, meta.mtime) {
                satisfiable(&req.range.unwrap(), meta.size)
            } else {
                None
            };
            if precondition_failed(req, etag, meta.mtime) {
                StepView::Respond(as_error(cached, 412, PRECONDITION_FAILED))
            } else if fresh(req, etag, meta.mtime) {
                StepView::Respond(as_not_modified(validated))
            } else if part is Some {
                StepView::Send(
                    framed(
                        args,
                        req,
                        ResponseView {
                            status: 206,
                            body: Body::FileRange(
                                part.unwrap().range.unwrap().0,
                                part.unwrap().range.unwrap().1,
                            ),
                            content_range: part,
                            ..validated
                        },
                        Action::DownloadFile,
                        target.path@,
                    ),
                )
            } else {
                StepView::Send(
                    framed(
                        args,
                        req,
                        ResponseView { body: Body::File, ..validated },
                        Action::DownloadFile,
                        target.path@,
                    ),
                )
            }
        },
    }
}

/// The answer to a request, given what the file system says about its
/// target.
///
/// 1. A query that asks for what cannot be done ends in 500.
/// 2. A target that is not there for the client ends in 404.
/// 3. A target outside the directory served ends in 403, unless links may
///    be followed.
/// 4. Otherwise the action decides: a listing, an archive, or the file.
pub open spec fn answer(args: &Args, rules: Gitignore, req: &Request, target: &Target) -> StepView {
    match chosen_action(query_of(req), target.is_dir) {
        Err(_) => StepView::Respond(as_error(blank(), 500, INTERNAL_SERVER_ERROR)),
        Ok(action) => if !visible(args, rules, target) {
            StepView::Respond(as_error(seeded(args), 404, NOT_FOUND))
        } else if !args.follow_links && !within_root(args, target) {
            StepView::Respond(as_error(seeded(args), 403, FORBIDDEN))
        } else {
            match action {
                Action::ListDir => StepView::Send(
                    framed(
                        args,
                        req,
                        ResponseView { body: Body::Listing, ..seeded(args) },
                        action,
                        target.path@,
                    ),
                ),
                Action::DownloadZip => StepView::Send(
                    framed(
                        args,
                        req,
                        ResponseView {
                            body: Body::Zip,
                            content_disposition: Some(disposition(target.path@)),
                            ..seeded(args)
                        },
                        action,
                        target.path@,
                    ),
                ),
                Action::DownloadFile => file_answer(args, req, target),
            }
        },
    }
}

/// The response once its body has been produced, or has failed to be:
/// `Content-Length` is the size of the body unless the body is compressed;
/// a failure ends in 500.
pub open spec fn completed(res: ResponseView, produced: Result<u64, SendError>) -> ResponseView {
    match produced {
        Ok(size) => if res.content_encoding is None {
            ResponseView { content_length: Some(size), ..res }
        } else {
            res
        },
        Err(_) => as_error(blank(), 500, INTERNAL_SERVER_ERROR),
    }
}

/// Where the pipeline stands once a request path has been resolved.
#[derive(Debug, Clone, PartialEq, Eq)]
pub enum Located {
    /// The path addresses this file.
    Path(Vec<u8>),
    /// There is nothing to look up; this is the response.
    Respond(Response),
}

/// Where locating a request path ends: at a file, with 404 where the path
/// lies outside the path prefix, or with 500 where it is no text.
pub open spec fn located(args: &Args, path: Seq<u8>) -> Result<Seq<u8>, ResponseView> {
    match resolved(args, path) {
        Ok(Some(file)) => Ok(file),
        Ok(None) => Err(as_error(seeded(args), 404, NOT_FOUND)),
        Err(_) => Err(as_error(blank(), 500, INTERNAL_SERVER_ERROR)),
    }
}

fn is_ascii_bytes(s: &[u8]) -> (r: bool)
    ensures
        r == is_ascii_text(s@),
{
    let mut i: usize = 0;
    while i < s.len()
        invariant
            i <= s@.len(),
            forall|k: int| 0 <= k < i ==> #[trigger] s@[k] < 128,
        decreases s@.len() - i,
    {
        if s[i] >= 128 {
            return false;
        }
        i += 1;
    }
    true
}

/// Decides what the value of `action` asks to be done with a target.
pub fn select_action(value: Option<&[u8]>, is_dir: bool) -> (r: Result<Action, RequestError>)
    ensures
        r == action_of(
            match value {
                Some(v) => Some(v@),
                None => None,
            },
            is_dir,
        ),
{
    match value {
        None => Ok(
            if is_dir {
                Action::ListDir
            } else {
                Action::DownloadFile
            },
        ),
        Some(v) => {
            if bytes_eq(v, "zip".as_bytes()) && is_dir {
                Ok(Action::DownloadZip)
            } else {
                Err(RequestError::Action)
            }
        },
    }
}

/// Decides what a query asks to be done with a target.
pub fn action_from_query(query: Option<&[u8]>, is_dir: bool) -> (r: Result<Action, RequestError>)
    ensures
        r == chosen_action(
            match query {
                Some(q) => Some(q@),
                None => None,
            },
            is_dir,
        ),
{
    match query {
        None => select_action(None, is_dir),
        Some(q) => {
            if !is_ascii_bytes(q) {
                return Err(RequestError::Query);
            }
            match query_parameter(q, "action") {
                Some(value) => select_action(Some(value.as_slice()), is_dir),
                None => select_action(None, is_dir),
            }
        },
    }
}

/// The service that answers requests: the settings, and the gitignore
/// rules of the directory served.
pub struct InnerService {
    pub args: Args,
    pub gitignore: Gitignore,
}

impl InnerService {
    /// The service that answers requests under `args`, with `gitignore` as the
    /// rules of the directory served.
    pub fn new(args: Args, gitignore: Gitignore) -> (r: InnerService)
        ensures
            r.args == args,
            r.gitignore == gitignore,
    {
        InnerService { args, gitignore }
    }

    /// The response as it starts out.
    pub fn seed(&self) -> (r: Response)
        ensures
            r@ == seeded(&self.args),
    {
        let mut res = Response::default();
        res.server = Some(SERVER_VERSION);
        self.enable_cors(&mut res);
        self.enable_coi(&mut res);
        res
    }

    /// Finds the file that a request path addresses: the path loses its
    /// leading slash, its percent signs and the path prefix, and is
    /// joined to the directory served.  `None` where the path does not
    /// lie under the path prefix.
    pub fn file_path_from_path(&self, path: &[u8]) -> (r: Result<Option<Vec<u8>>, RequestError>)
        ensures
            match r {
                Ok(Some(file)) => resolved(&self.args, path@) == Ok::<
                    Option<Seq<u8>>,
                    RequestError,
                >(Some(file@)),
                Ok(None) => resolved(&self.args, path@) == Ok::<Option<Seq<u8>>, RequestError>(
                    None,
                ),
                Err(e) => resolved(&self.args, path@) == Err::<Option<Seq<u8>>, RequestError>(e),
            },
    {
        let bare = if path.len() > 0 && path[0] == SLASH {
            vstd::slice::slice_subrange(path, 1, path.len())
        } else {
            path
        };
        let decoded = match percent_decode_utf8(bare) {
            Ok(bytes) => bytes,
            Err(_) => {
                return Err(RequestError::Path);
            },
        };
        match self.strip_path_prefix(decoded.as_slice()) {
            Some(rest) => Ok(Some(join(self.args.path.as_slice(), rest.as_slice()))),
            None => Ok(None),
        }
    }

    /// The path that is served for a file found.
    pub fn index_path(&self, path: Vec<u8>, is_dir: bool) -> (r: Vec<u8>)
        ensures
            r@ == indexed(&self.args, path@, is_dir),
    {
        if self.args.render_index && is_dir {
            join(path.as_slice(), INDEX.as_bytes())
        } else {
            path
        }
    }

    /// Resolves the path of a request, or answers at once where that
    /// comes to nothing.
    pub fn locate(&self, req: &Request) -> (r: Located)
        ensures
            match r {
                Located::Path(file) => located(&self.args, req.path@) == Ok::<
                    Seq<u8>,
                    ResponseView,
                >(file@),
                Located::Respond(res) => located(&self.args, req.path@) == Err::<
                    Seq<u8>,
                    ResponseView,
                >(res@),
            },
    {
        match self.file_path_from_path(req.path.as_slice()) {
            Ok(Some(file)) => Located::Path(file),
            Ok(None) => Located::Respond(not_found(self.seed())),
            Err(_) => Located::Respond(internal_server_error(Response::default())),
        }
    }

    /// Lets clients keep what they get for as long as the settings say.
    pub fn enable_cache_control(&self, res: &mut Response)
        ensures
            final(res)@ == (ResponseView {
                cache_control: Some(CacheControl { public: true, max_age: self.args.cache }),
                ..old(res)@
            }),
    {
        res.cache_control = Some(CacheControl { public: true, max_age: self.args.cache });
    }

    /// Lets every origin in, where the settings say so.
    pub fn enable_cors(&self, res: &mut Response)
        ensures
            final(res)@ == (if self.args.cors {
                ResponseView {
                    access_control_allow_origin: Some(ALLOW_ANY_ORIGIN),
                    access_control_allow_headers: Some(ALLOW_HEADERS),
                    ..old(res)@
                }
            } else {
                old(res)@
            }),
    {
        if self.args.cors {
            res.access_control_allow_origin = Some(ALLOW_ANY_ORIGIN);
            res.access_control_allow_headers = Some(ALLOW_HEADERS);
        }
    }

    /// Asks for cross-origin isolation, where the settings say so.
    pub fn enable_coi(&self, res: &mut Response)
        ensures
            final(res)@ == (if self.args.coi {
                ResponseView {
                    cross_origin_embedder_policy: Some(REQUIRE_CORP),
                    cross_origin_opener_policy: Some(SAME_ORIGIN),
                    ..old(res)@
                }
            } else {
                old(res)@
            }),
    {
        if self.args.coi {
            res.cross_origin_embedder_policy = Some(REQUIRE_CORP);
            res.cross_origin_opener_policy = Some(SAME_ORIGIN);
        }
    }

    /// Whether the body of a response of this status and media type may
    /// be compressed.
    pub fn can_compress(&self, status: u16, mime: &Mime) -> (r: bool)
        ensures
            r == compressible(self.args.compress, status, mime.essence@),
    {
        self.args.compress && status != 206 && !mime.is_compressed_format()
    }

    /// Whether a path is there for a client: it exists, and is neither
    /// hidden nor ignored.
    pub fn path_exists(&self, path: &[u8], exists: bool, is_dir: bool) -> (r: bool)
        ensures
            r == (exists && !hidden(&self.args, path@) && !ignored(
                &self.args,
                self.gitignore,
                path@,
                is_dir,
            )),
    {
        exists && !self.path_is_hidden(path) && !self.path_is_ignored(path, is_dir)
    }

    /// Whether a path is hidden from clients.
    pub fn path_is_hidden(&self, path: &[u8]) -> (r: bool)
        ensures
            r == hidden(&self.args, path@),
    {
        !self.args.all && path.is_relatively_hidden()
    }

    /// Whether a path is ignored.
    pub fn path_is_ignored(&self, path: &[u8], is_dir: bool) -> (r: bool)
        ensures
            r == ignored(&self.args, self.gitignore, path@, is_dir),
    {
        self.args.ignore && gitignore_matched(&self.gitignore, path, is_dir)
    }

    /// Whether a path with every symbolic link resolved lies under the
    /// directory served; a path that could not be resolved does not.
    pub fn path_is_under_basepath(&self, canonical: Option<&[u8]>) -> (r: bool)
        ensures
            r == match canonical {
                Some(c) => under(c@, self.args.path@),
                None => false,
            },
    {
        match canonical {
            Some(c) => starts_with_path(c, self.args.path.as_slice()),
            None => false,
        }
    }

    /// Takes the path prefix off a request path.  `None` where a prefix is
    /// set and the path does not lie under it.
    pub fn strip_path_prefix(&self, path: &[u8]) -> (r: Option<Vec<u8>>)
        ensures
            match r {
                Some(rest) => without_prefix(&self.args, path@) == Some(rest@),
                None => without_prefix(&self.args, path@) is None,
            },
    {
        match &self.args.path_prefix {
            Some(prefix) => {
                let p = prefix.as_slice();
                let mut i: usize = 0;
                while i < p.len() && p[i] == SLASH
                    invariant
                        i <= p@.len(),
                        leading_slashes(p@, 0) == leading_slashes(p@, i as int),
                    decreases p@.len() - i,
                {
                    i += 1;
                }
                strip_prefix(path, vstd::slice::slice_subrange(p, i, p.len()))
            },
            None => Some(to_vec(path)),
        }
    }

    /// The media type of the response to a request for `path`.
    pub fn guess_path_mime(path: &[u8], action: Action) -> (r: Mime)
        ensures
            r@ == path_mime(path@, action),
    {
        match action {
            Action::ListDir => Mime::utf8("text/html".as_bytes()),
            Action::DownloadZip => Mime::new("application/octet-stream".as_bytes()),
            Action::DownloadFile => match path.mime() {
                Some(guess) => {
                    let charset = guess.guess_charset();
                    Mime { essence: guess.essence, charset }
                },
                None => Mime::utf8("text/plain".as_bytes()),
            },
        }
    }

    /// Sets the header fields that every response with a body of its own
    /// ends up with.
    pub fn frame(&self, req: &Request, res: Response, action: Action, path: &[u8]) -> (r: Response)
        ensures
            r@ == framed(&self.args, req, res@, action, path@),
    {
        let mut res = res;
        let mime = InnerService::guess_path_mime(path, action);
        let encoding = match &req.accept_encoding {
            Some(value) => negotiate(value.as_slice()),
            None => Encoding::Identity,
        };
        if self.can_compress(res.status, &mime) && encoding != Encoding::Identity {
            res.content_encoding = Some(encoding);
            res.vary = Some(ACCEPT_ENCODING);
        } else {
            res.content_encoding = None;
            res.vary = None;
        }
        res.accept_ranges = Some(BYTES);
        res.content_type = Some(mime);
        res
    }

    fn handle_file(&self, req: &Request, target: &Target) -> (r: Step)
        ensures
            r@ == file_answer(&self.args, req, target),
    {
        let mut res = self.seed();
        self.enable_cache_control(&mut res);
        let meta = match target.meta {
            Some(meta) => meta,
            None => {
                return Step::Respond(internal_server_error(Response::default()));
            },
        };
        let etag = EntityTag::for_file(meta.mtime, meta.size);
        if is_precondition_failed(req, &etag, meta.mtime) {
            return Step::Respond(precondition_failed_response(res));
        }
        let range_applies = is_range_fresh(req, &etag, meta.mtime);
        let fresh_copy = is_fresh(req, &etag, meta.mtime);
        res.last_modified = Some(meta.mtime);
        res.etag = Some(etag);
        if fresh_copy {
            return Step::Respond(not_modified(res));
        }
        let part = match &req.range {
            Some(range) => {
                if range_applies {
                    is_satisfiable_range(range, meta.size)
                } else {
                    None
                }
            },
            None => None,
        };
        match part {
            Some(content_range) => {
                proof {
                    crate::http::range_requests::lemma_satisfiable_within(
                        &req.range.unwrap(),
                        meta.size,
                    );
                }
                match content_range.range {
                    Some((first, last)) => {
                        res.status = 206;
                        res.body = Body::FileRange(first, last);
                        res.content_range = Some(content_range);
                    },
                    None => {},
                }
            },
            None => {
                res.body = Body::File;
            },
        }
        Step::Send(self.frame(req, res, Action::DownloadFile, target.path.as_slice()))
    }

    /// Answers a request, given what the file system says about the
    /// target that [`locate`](InnerService::locate) and
    /// [`index_path`](InnerService::index_path) found for it.
    pub fn handle_request(&self, req: &Request, target: &Target) -> (r: Step)
        ensures
            r@ == answer(&self.args, self.gitignore, req, target),
    {
        let query: Option<&[u8]> = match &req.query {
            Some(q) => Some(q.as_slice()),
            None => None,
        };
        let action = match action_from_query(query, target.is_dir) {
            Ok(action) => action,
            Err(_) => {
                return Step::Respond(internal_server_error(Response::default()));
            },
        };
        let path = target.path.as_slice();
        if !self.path_exists(path, target.exists, target.is_dir) {
            return Step::Respond(not_found(self.seed()));
        }
        let canonical: Option<&[u8]> = match &target.canonical {
            Some(c) => Some(c.as_slice()),
            None => None,
        };
        if !self.args.follow_links && !self.path_is_under_basepath(canonical) {
            return Step::Respond(forbidden(self.seed()));
        }
        match action {
            Action::ListDir => {
                let mut res = self.seed();
                res.body = Body::Listing;
                Step::Send(self.frame(req, res, action, path))
            },
            Action::DownloadZip => {
                let mut res = self.seed();
                res.body = Body::Zip;
                let mut text = to_vec("attachment; filename=\"".as_bytes());
                append(&mut text, path.filename_str());
                append(&mut text, ".zip\"".as_bytes());
                res.content_disposition = Some(text);
                Step::Send(self.frame(req, res, action, path))
            },
            Action::DownloadFile => self.handle_file(req, target),
        }
    }

    /// Sets the watch over the body of a response: with a line for the
    /// log where the server keeps one, and with the `Content-Length` of
    /// the response where it has one.
    pub fn watch(
        &self,
        remote_addr: &[u8],
        version: &[u8],
        req: &Request,
        res: &Response,
    ) -> (r: crate::http::loggable::LoggableBody)
        ensures
            r.bytes_sent == 0,
            !r.logged,
            r.content_length == res.content_length,
            r.log is Some == self.args.log,
            r.log is Some ==> ({
                let log = r.log.unwrap();
                &&& log.remote_addr is Some && log.remote_addr.unwrap()@ == remote_addr@
                &&& log.method@ == req.method@
                &&& log.uri@ == crate::http::loggable::target_text(req)
                &&& log.status == res.status
                &&& log.version@ == version@
                &&& log.user_agent@ == crate::http::loggable::agent_text(req)
            }),
    {
        let log = if self.args.log {
            Some(crate::http::loggable::Log::new(remote_addr, version, req, res))
        } else {
            None
        };
        match res.content_length {
            Some(length) => crate::http::loggable::LoggableBody::with_content_length(log, length),
            None => crate::http::loggable::LoggableBody::new(log),
        }
    }

    /// Completes a response once its body has been produced, of the size
    /// given, or has failed to be.
    pub fn finish(&self, res: Response, produced: Result<u64, SendError>) -> (r: Response)
        ensures
            r@ == completed(res@, produced),
    {
        match produced {
            Ok(size) => {
                let mut res = res;
                if res.content_encoding.is_none() {
                    res.content_length = Some(size);
                }
                res
            },
            Err(_) => internal_server_error(Response::default()),
        }
    }
}

/// The response that a step carries, sent at once or after its body.
pub open spec fn response_of(step: StepView) -> ResponseView {
    match step {
        StepView::Respond(res) => res,
        StepView::Send(res) => res,
    }
}

/// The tag of a response is the tag of the file's modification time and
/// size: whatever else differs between two requests for files that agree
/// in both, the tags that answer them are the same, byte for byte.
pub proof fn lemma_same_validator_same_tag(
    args: &Args,
    req: &Request,
    target: &Target,
    other_args: &Args,
    other_req: &Request,
    other_target: &Target,
)
    requires
        target.meta is Some,
        other_target.meta == target.meta,
    ensures
        ({
            let a = response_of(file_answer(args, req, target));
            let b = response_of(file_answer(other_args, other_req, other_target));
            &&& a.etag is Some ==> a.etag == Some(
                (false, file_tag(target.meta.unwrap().mtime, target.meta.unwrap().size)),
            )
            &&& a.etag is Some && b.etag is Some ==> a.etag == b.etag
        }),
{
}

/// A request for a range that lies within the file is answered with that
/// range: status 206, the bytes from `first` to `last` as the body, and
/// a `Content-Range` that names them and the size of the file.
pub proof fn lemma_range_within_file(
    args: &Args,
    rules: Gitignore,
    req: &Request,
    target: &Target,
    first: u64,
    last: u64,
)
    requires
        chosen_action(query_of(req), target.is_dir) == Ok::<Action, RequestError>(
            Action::DownloadFile,
        ),
        visible(args, rules, target),
        args.follow_links || within_root(args, target),
        target.meta is Some,
        first <= last < target.meta.unwrap().size,
        req.range is Some,
        req.range.unwrap().specs@ == seq![crate::http::headers::ByteRange::FromTo(first, last)],
        ({
            let meta = target.meta.unwrap();
            let etag = (false, file_tag(meta.mtime, meta.size));
            &&& range_fresh(req, etag, meta.mtime)
            &&& !precondition_failed(req, etag, meta.mtime)
            &&& !fresh(req, etag, meta.mtime)
        }),
    ensures
        answer(args, rules, req, target) is Send,
        ({
            let res = response_of(answer(args, rules, req, target));
            &&& res.status == 206
            &&& res.body == Body::FileRange(first, last)
            &&& res.content_range == Some(
                (ContentRange {
                    range: Some((first, last)),
                    complete_length: Some(target.meta.unwrap().size),
                }),
            )
        }),
        crate::server::send::range_body(target.meta.unwrap().size, first, last)
            == (crate::server::send::RangeBody {
            start: first,
            take: (last - first + 1) as u64,
            size: (last - first + 1) as u64,
        }),
{
}

/// A hidden path is not found, whether it exists or not: where the server
/// does not serve everything and a component of the target begins with a
/// dot, the answer is 404.
pub proof fn lemma_hidden_not_found(args: &Args, rules: Gitignore, req: &Request, target: &Target)
    requires
        !args.all,
        relatively_hidden(target.path@),
        chosen_action(query_of(req), target.is_dir) is Ok,
    ensures
        answer(args, rules, req, target) == StepView::Respond(
            as_error(seeded(args), 404, NOT_FOUND),
        ),
{
}

/// What else is not there for a client is not found either: a target that
/// does not exist, and one that the gitignore rules ignore while they
/// count.
pub proof fn lemma_absent_not_found(args: &Args, rules: Gitignore, req: &Request, target: &Target)
    requires
        !target.exists || ignored(args, rules, target.path@, target.is_dir),
        chosen_action(query_of(req), target.is_dir) is Ok,
    ensures
        response_of(answer(args, rules, req, target)).status == 404,
{
}

/// A target outside the directory served is forbidden unless links may be
/// followed.
pub proof fn lemma_outside_forbidden(args: &Args, rules: Gitignore, req: &Request, target: &Target)
    requires
        !args.follow_links,
        !within_root(args, target),
        visible(args, rules, target),
        chosen_action(query_of(req), target.is_dir) is Ok,
    ensures
        answer(args, rules, req, target) == StepView::Respond(
            as_error(seeded(args), 403, FORBIDDEN),
        ),
{
}

/// No part of a file is compressed, and nothing whose format is
/// compressed already.
pub proof fn lemma_never_compressed(args: &Args, rules: Gitignore, req: &Request, target: &Target)
    ensures
        ({
            let res = response_of(answer(args, rules, req, target));
            &&& res.status == 206 ==> res.content_encoding is None
            &&& res.content_type is Some && compressed_format(res.content_type.unwrap().0)
                ==> res.content_encoding is None
            &&& !args.compress ==> res.content_encoding is None
        }),
{
}

/// A compressed body goes out without `Content-Length` and with
/// `Vary: Accept-Encoding`, whatever the size of what was produced.
pub proof fn lemma_compressed_framing(
    args: &Args,
    rules: Gitignore,
    req: &Request,
    target: &Target,
    produced: Result<u64, SendError>,
)
    ensures
        ({
            let res = completed(response_of(answer(args, rules, req, target)), produced);
            res.content_encoding is Some ==> res.content_length is None && res.vary == Some(
                ACCEPT_ENCODING,
            ) && res.content_encoding != Some(Encoding::Identity)
        }),
        ({
            let step = answer(args, rules, req, target);
            step is Respond ==> response_of(step).content_encoding is None
        }),
{
}

/// A body that is not compressed goes out with its size as
/// `Content-Length`.
pub proof fn lemma_plain_framing(
    args: &Args,
    rules: Gitignore,
    req: &Request,
    target: &Target,
    size: u64,
)
    requires
        answer(args, rules, req, target) is Send,
        response_of(answer(args, rules, req, target)).content_encoding is None,
    ensures
        completed(
            response_of(answer(args, rules, req, target)),
            Ok::<u64, SendError>(size),
        ).content_length == Some(size),
{
}

/// The server answers with one of seven statuses, whatever the request
/// and whatever becomes of the body.
pub proof fn lemma_statuses(
    args: &Args,
    rules: Gitignore,
    req: &Request,
    target: &Target,
    produced: Result<u64, SendError>,
)
    ensures
        ({
            let status = response_of(answer(args, rules, req, target)).status;
            status == 200 || status == 206 || status == 304 || status == 403 || status == 404
                || status == 412 || status == 500
        }),
        ({
            let status = completed(
                response_of(answer(args, rules, req, target)),
                produced,
            ).status;
            status == 200 || status == 206 || status == 500
                || answer(args, rules, req, target) is Respond
        }),
{
}

/// A part of a file is a part of that file: a response of status 206
/// names a first and a last byte within the file, the first not behind
/// the last, and says so in `Content-Range` together with the size of the
/// file.
pub proof fn lemma_part_lies_within(args: &Args, rules: Gitignore, req: &Request, target: &Target)
    requires
        response_of(answer(args, rules, req, target)).status == 206,
    ensures
        target.meta is Some,
        ({
            let res = response_of(answer(args, rules, req, target));
            let size = target.meta.unwrap().size;
            exists|first: u64, last: u64|
                first <= last < size && res.body == Body::FileRange(first, last)
                    && res.content_range == Some(
                    (ContentRange { range: Some((first, last)), complete_length: Some(size) }),
                )
        }),
{
    let meta = target.meta.unwrap();
    crate::http::range_requests::lemma_satisfiable_within(&req.range.unwrap(), meta.size);
    let part = satisfiable(&req.range.unwrap(), meta.size).unwrap();
    let first = part.range.unwrap().0;
    let last = part.range.unwrap().1;
    let res = response_of(answer(args, rules, req, target));
    assert(first <= last < meta.size && res.body == Body::FileRange(first, last)
        && res.content_range == Some(
        (ContentRange { range: Some((first, last)), complete_length: Some(meta.size) }),
    ));
}

} // verus!
