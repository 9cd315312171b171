//! The access log: one line for each response, written when its body has
//! gone out.
//!
//! A body is watched piece by piece.  Each piece adds to the count of
//! bytes sent, and the line is due at the end of the stream, or as soon
//! as the bytes counted reach the `Content-Length`, whichever comes
//! first.  The line is due once and not again.

use vstd::prelude::*;
use vstd::string::*;
use crate::http::content_encoding::{is_header_text, is_text};
use crate::server::{Request, Response};
use crate::text::{append, append_decimal, decimal, to_vec, QUESTION_MARK};

verus! {

/// What a line of the log says about a request and its response.
#[derive(Debug, Clone, PartialEq, Eq)]
pub struct Log {
    /// The address of the client as text, where it is known.
    pub remote_addr: Option<Vec<u8>>,
    pub method: Vec<u8>,
    /// The request target: the path, and the query behind a question
    /// mark where there is one.
    pub uri: Vec<u8>,
    pub status: u16,
    /// The version of the protocol, such as `HTTP/1.1`.
    pub version: Vec<u8>,
    pub user_agent: Vec<u8>,
}

/// The request target of a request.
pub open spec fn target_text(req: &Request) -> Seq<u8> {
    match req.query {
        Some(query) => req.path@ + seq![QUESTION_MARK] + query@,
        None => req.path@,
    }
}

/// What the log says of the client's software: a dash where the request
/// names none, nothing where what it names is no text, and the name
/// otherwise.
pub open spec fn agent_text(req: &Request) -> Seq<u8> {
    match req.user_agent {
        Some(agent) => if is_header_text(agent@) {
            agent@
        } else {
            Seq::empty()
        },
        None => "-".spec_bytes(),
    }
}

/// A line of the log:
///
/// ```text
/// <ip> - - [<time>] "<method> <uri> <version>" <status> <bytes> "-" "<agent>" "-"
/// ```
///
/// with a dash for an address that is not known.
pub open spec fn log_line(
    remote_addr: Option<Seq<u8>>,
    local_time: Seq<u8>,
    method: Seq<u8>,
    uri: Seq<u8>,
    version: Seq<u8>,
    status: u16,
    bytes_sent: usize,
    user_agent: Seq<u8>,
) -> Seq<u8> {
    (match remote_addr {
        Some(ip) => ip,
        None => "-".spec_bytes(),
    }) + " - - [".spec_bytes() + local_time + "] \"".spec_bytes() + method + " ".spec_bytes() + uri
        + " ".spec_bytes() + version + "\" ".spec_bytes() + decimal(status as nat)
        + " ".spec_bytes() + decimal(bytes_sent as nat) + " \"-\" \"".spec_bytes() + user_agent
        + "\" \"-\"".spec_bytes()
}

impl Log {
    /// What the log is to say about `req` and `res`.
    pub fn new(remote_addr: &[u8], version: &[u8], req: &Request, res: &Response) -> (r: Log)
        ensures
            r.remote_addr is Some && r.remote_addr.unwrap()@ == remote_addr@,
            r.method@ == req.method@,
            r.uri@ == target_text(req),
            r.status == res.status,
            r.version@ == version@,
            r.user_agent@ == agent_text(req),
    {
        let mut uri = to_vec(req.path.as_slice());
        match &req.query {
            Some(query) => {
                uri.push(QUESTION_MARK);
                append(&mut uri, query.as_slice());
            },
            None => {},
        }
        let user_agent = match &req.user_agent {
            Some(agent) => {
                if is_text(agent.as_slice()) {
                    to_vec(agent.as_slice())
                } else {
                    Vec::new()
                }
            },
            None => to_vec("-".as_bytes()),
        };
        Log {
            remote_addr: Some(to_vec(remote_addr)),
            method: to_vec(req.method.as_slice()),
            uri,
            status: res.status,
            version: to_vec(version),
            user_agent,
        }
    }

    /// The line of the log, given the local time as text and the number of
    /// bytes sent.
    pub fn line(&self, local_time: &[u8], bytes_sent: usize) -> (r: Vec<u8>)
        ensures
            r@ == log_line(
                match self.remote_addr {
                    Some(ip) => Some(ip@),
                    None => None,
                },
                local_time@,
                self.method@,
                self.uri@,
                self.version@,
                self.status,
                bytes_sent,
                self.user_agent@,
            ),
    {
        let mut out: Vec<u8> = Vec::new();
        match &self.remote_addr {
            Some(ip) => append(&mut out, ip.as_slice()),
            None => append(&mut out, "-".as_bytes()),
        }
        append(&mut out, " - - [".as_bytes());
        append(&mut out, local_time);
        append(&mut out, "] \"".as_bytes());
        append(&mut out, self.method.as_slice());
        append(&mut out, " ".as_bytes());
        append(&mut out, self.uri.as_slice());
        append(&mut out, " ".as_bytes());
        append(&mut out, self.version.as_slice());
        append(&mut out, "\" ".as_bytes());
        append_decimal(&mut out, self.status as u64);
        append(&mut out, " ".as_bytes());
        append_decimal(&mut out, bytes_sent as u64);
        append(&mut out, " \"-\" \"".as_bytes());
        append(&mut out, self.user_agent.as_slice());
        append(&mut out, "\" \"-\"".as_bytes());
        proof {
            let ip = match &self.remote_addr {
                Some(ip) => ip@,
                None => "-".spec_bytes(),
            };
            assert(out@ =~= ip + " - - [".spec_bytes() + local_time@ + "] \"".spec_bytes()
                + self.method@ + " ".spec_bytes() + self.uri@ + " ".spec_bytes() + self.version@
                + "\" ".spec_bytes() + decimal(self.status as nat) + " ".spec_bytes() + decimal(
                bytes_sent as nat,
            ) + " \"-\" \"".spec_bytes() + self.user_agent@ + "\" \"-\"".spec_bytes());
        }
        out
    }
}

/// What can happen to a body on its way out.
#[derive(Debug, Clone, Copy, PartialEq, Eq)]
pub enum Polled {
    /// A piece of this many bytes went out.
    Data(usize),
    /// The stream failed.
    Failed,
    /// The stream came to its end.
    End,
    /// The body was dropped before its end.
    Dropped,
}

/// The watch over a body: the bytes counted so far, the `Content-Length`
/// where one was sent, what the log is to say, and whether it has been
/// said.
#[derive(Debug, Clone, PartialEq, Eq)]
pub struct LoggableBody {
    pub bytes_sent: usize,
    pub content_length: Option<u64>,
    pub log: Option<Log>,
    pub logged: bool,
}

/// The bytes counted once a piece has gone out; the count wraps round
/// where it overflows.
pub open spec fn counted(bytes_sent: usize, polled: Polled) -> usize {
    match polled {
        Polled::Data(n) => vstd::wrapping::usize_specs::wrapping_add(bytes_sent, n),
        _ => bytes_sent,
    }
}

/// Whether a body is through: its stream has come to an end one way or
/// another, or the bytes counted have reached the `Content-Length`.
pub open spec fn through(bytes_sent: usize, content_length: Option<u64>, polled: Polled) -> bool {
    match polled {
        Polled::End => true,
        Polled::Dropped => true,
        _ => match content_length {
            Some(length) => bytes_sent >= length,
            None => false,
        },
    }
}

impl LoggableBody {
    /// Whether a line is due for what has just happened: the body is
    /// through, there is something to log, and it has not been logged.
    pub open spec fn due(&self, polled: Polled) -> bool {
        self.log is Some && !self.logged && through(
            counted(self.bytes_sent, polled),
            self.content_length,
            polled,
        )
    }

    /// The watch over a body of unknown length.
    pub fn new(log: Option<Log>) -> (r: LoggableBody)
        ensures
            r.bytes_sent == 0,
            r.content_length is None,
            r.log == log,
            !r.logged,
    {
        LoggableBody { bytes_sent: 0, content_length: None, log, logged: false }
    }

    /// The watch over a body of `content_length` bytes.
    pub fn with_content_length(log: Option<Log>, content_length: u64) -> (r: LoggableBody)
        ensures
            r.bytes_sent == 0,
            r.content_length == Some(content_length),
            r.log == log,
            !r.logged,
    {
        LoggableBody { bytes_sent: 0, content_length: Some(content_length), log, logged: false }
    }

    /// Takes note of what happened to the body and says whether the line
    /// of the log is due now; where it is, with the number of bytes to
    /// put into it.
    pub fn poll_data(&mut self, polled: Polled) -> (r: Option<usize>)
        ensures
            final(self).bytes_sent == counted(old(self).bytes_sent, polled),
            final(self).content_length == old(self).content_length,
            final(self).log == old(self).log,
            final(self).logged == (old(self).logged || old(self).due(polled)),
            r == (if old(self).due(polled) {
                Some(final(self).bytes_sent)
            } else {
                None
            }),
    {
        match polled {
            Polled::Data(n) => {
                self.bytes_sent = self.bytes_sent.wrapping_add(n);
            },
            _ => {},
        }
        let through = match polled {
            Polled::End => true,
            Polled::Dropped => true,
            _ => match self.content_length {
                Some(length) => self.bytes_sent as u64 >= length,
                None => false,
            },
        };
        if through && self.log.is_some() && !self.logged {
            self.logged = true;
            Some(self.bytes_sent)
        } else {
            None
        }
    }
}

/// The line is due once and not again: whatever happens to a body after
/// its line was due, no second line is.
pub proof fn lemma_logged_once(body: LoggableBody, first: Polled, after: LoggableBody, second: Polled)
    requires
        body.due(first),
        after.log == body.log,
        after.logged == (body.logged || body.due(first)),
    ensures
        !after.due(second),
{
}

/// A body with something to log has its line written by the time its
/// stream ends or it is dropped.
pub proof fn lemma_logged_at_end(body: LoggableBody, polled: Polled)
    requires
        body.log is Some,
        polled == Polled::End || polled == Polled::Dropped,
    ensures
        body.logged || body.due(polled),
{
}

} // verus!
