//! The settings of a server, and how they come out of the command line.

use vstd::prelude::*;
use vstd::string::*;
use crate::text::{append, append_decimal, decimal, number, parse_number, to_vec, COLON, SLASH};

verus! {

/// The settings that every request is served under.
#[derive(Debug, Clone, PartialEq, Eq)]
pub struct Args {
    /// The address to bind to, as the user wrote it.
    pub address: Vec<u8>,
    pub port: u16,
    /// How many seconds a client may keep a file.
    pub cache: u64,
    /// Whether to let every origin in.
    pub cors: bool,
    /// Whether to ask for cross-origin isolation.
    pub coi: bool,
    /// Whether bodies may be compressed.
    pub compress: bool,
    /// The directory that is served, absolute and free of symbolic links.
    pub path: Vec<u8>,
    /// Whether hidden files are served.
    pub all: bool,
    /// Whether what `.gitignore` names is kept back.
    pub ignore: bool,
    /// Whether symbolic links may lead out of the directory served.
    pub follow_links: bool,
    /// Whether a directory is answered with its `index.html`.
    pub render_index: bool,
    /// Whether requests are logged.
    pub log: bool,
    /// What every request path is expected to begin with; it begins with a
    /// slash.
    pub path_prefix: Option<Vec<u8>>,
    /// More CSS for the listing page.
    pub user_style: Vec<u8>,
}

/// What the command line holds, option by option, before any of it is
/// read.
#[derive(Debug, Clone, PartialEq, Eq)]
pub struct Matches {
    pub address: Vec<u8>,
    pub port: Vec<u8>,
    pub cache: Vec<u8>,
    pub cors: bool,
    pub coi: bool,
    /// The directory to serve, absolute and free of symbolic links.
    pub path: Vec<u8>,
    pub unzipped: bool,
    pub all: bool,
    pub no_ignore: bool,
    pub no_log: bool,
    pub follow_links: bool,
    pub render_index: bool,
    pub path_prefix: Option<Vec<u8>>,
    pub style: Vec<u8>,
}

impl Default for Matches {
    /// The command line that names nothing: all of `127.0.0.1` on port
    /// 5000, the working directory, nothing cached, every switch off.
    fn default() -> (r: Matches)
        ensures
            r.address@ == "127.0.0.1".spec_bytes(),
            r.port@ == "5000".spec_bytes(),
            r.cache@ == "0".spec_bytes(),
            r.path@ == ".".spec_bytes(),
            !r.cors && !r.coi && !r.unzipped && !r.all && !r.no_ignore && !r.no_log
                && !r.follow_links && !r.render_index,
            r.path_prefix is None,
            r.style@ == Seq::<u8>::empty(),
    {
        Matches {
            address: to_vec("127.0.0.1".as_bytes()),
            port: to_vec("5000".as_bytes()),
            cache: to_vec("0".as_bytes()),
            cors: false,
            coi: false,
            path: to_vec(".".as_bytes()),
            unzipped: false,
            all: false,
            no_ignore: false,
            no_log: false,
            follow_links: false,
            render_index: false,
            path_prefix: None,
            style: Vec::new(),
        }
    }
}

/// What is wrong with a command line.
#[derive(Debug, Clone, Copy, PartialEq, Eq, Structural)]
pub enum ArgsError {
    /// The port is no number up to 65535.
    Port,
    /// The cache time is no number of seconds.
    Cache,
}

/// How many slashes `s` begins with.
pub open spec fn leading_slashes(s: Seq<u8>, from: int) -> int
    decreases s.len() - from,
{
    if from < 0 || from >= s.len() || s[from] != SLASH {
        from
    } else {
        leading_slashes(s, from + 1)
    }
}

/// A path prefix as the server keeps it: one slash, and the prefix
/// without the slashes it begins with.
pub open spec fn normal_prefix(prefix: Seq<u8>) -> Seq<u8> {
    seq![SLASH] + prefix.subrange(leading_slashes(prefix, 0), prefix.len() as int)
}

/// `address:port`.
pub open spec fn socket_text(address: Seq<u8>, port: u16) -> Seq<u8> {
    address + seq![COLON] + decimal(port as nat)
}

fn normalize_prefix(prefix: &[u8]) -> (r: Vec<u8>)
    ensures
        r@ == normal_prefix(prefix@),
{
    let mut i: usize = 0;
    while i < prefix.len() && prefix[i] == SLASH
        invariant
            i <= prefix@.len(),
            leading_slashes(prefix@, 0) == leading_slashes(prefix@, i as int),
        decreases prefix@.len() - i,
    {
        i += 1;
    }
    let mut out: Vec<u8> = Vec::new();
    out.push(SLASH);
    append(&mut out, vstd::slice::slice_subrange(prefix, i, prefix.len()));
    out
}

impl Args {
    /// Settings are well formed when the path prefix, where there is one,
    /// begins with a slash.
    pub open spec fn well_formed(&self) -> bool {
        match self.path_prefix {
            Some(prefix) => prefix@.len() > 0 && prefix@[0] == SLASH,
            None => true,
        }
    }

    /// Reads the settings out of the command line.
    ///
    /// The port must be a number up to 65535 and the cache time a number
    /// of seconds.  Compression, `.gitignore` and the log are on unless
    /// switched off.  A path prefix is kept with exactly one slash in
    /// front.
    pub fn parse(matches: Matches) -> (r: Result<Args, ArgsError>)
        ensures
            number(matches.port@, 65535) is None ==> r == Err::<Args, ArgsError>(ArgsError::Port),
            number(matches.port@, 65535) is Some && number(matches.cache@, u64::MAX) is None ==> r
                == Err::<Args, ArgsError>(ArgsError::Cache),
            number(matches.port@, 65535) is Some && number(matches.cache@, u64::MAX) is Some
                ==> r is Ok && ({
                let a = r->Ok_0;
                &&& a.well_formed()
                &&& a.address@ == matches.address@
                &&& a.port == number(matches.port@, 65535).unwrap()
                &&& a.cache == number(matches.cache@, u64::MAX).unwrap()
                &&& a.cors == matches.cors
                &&& a.coi == matches.coi
                &&& a.compress == !matches.unzipped
                &&& a.path@ == matches.path@
                &&& a.all == matches.all
                &&& a.ignore == !matches.no_ignore
                &&& a.follow_links == matches.follow_links
                &&& a.render_index == matches.render_index
                &&& a.log == !matches.no_log
                &&& match matches.path_prefix {
                    Some(p) => a.path_prefix is Some && a.path_prefix.unwrap()@ == normal_prefix(
                        p@,
                    ),
                    None => a.path_prefix is None,
                }
                &&& a.user_style@ == matches.style@
            }),
    {
        let port = match parse_number(matches.port.as_slice(), 65535) {
            Some(p) => p as u16,
            None => {
                return Err(ArgsError::Port);
            },
        };
        let cache = match parse_number(matches.cache.as_slice(), u64::MAX) {
            Some(c) => c,
            None => {
                return Err(ArgsError::Cache);
            },
        };
        let path_prefix = match &matches.path_prefix {
            Some(p) => Some(normalize_prefix(p.as_slice())),
            None => None,
        };
        Ok(
            Args {
                address: matches.address,
                port,
                cache,
                cors: matches.cors,
                coi: matches.coi,
                compress: !matches.unzipped,
                path: matches.path,
                all: matches.all,
                ignore: !matches.no_ignore,
                follow_links: matches.follow_links,
                render_index: matches.render_index,
                log: !matches.no_log,
                path_prefix,
                user_style: matches.style,
            },
        )
    }

    /// The socket address to bind to, as text: the address, a colon, the
    /// port.
    pub fn address(&self) -> (r: Vec<u8>)
        ensures
            r@ == socket_text(self.address@, self.port),
    {
        let mut out = to_vec(self.address.as_slice());
        out.push(COLON);
        append_decimal(&mut out, self.port as u64);
        out
    }
}

} // verus!
