//! The routing tables and the remote endpoint: which table lives where,
//! where it is fetched from, what an answer of the endpoint means, and
//! what is written when a table is replaced.

use crate::config::Config;
use crate::errors::{bucket, HttpError};
use crate::text::{append, signed_decimal, to_signed_decimal, utf8};
use vstd::prelude::*;
use vstd::slice::slice_to_vec;
use vstd::string::StringExecFns;

verus! {

/// The program that builds the index of a table. Where it is found on the
/// search path, it is run on the path of each table that was written.
pub const INDEX_BUILDER: &'static str = "postmap";

/// The name of the header that carries the shared token.
pub const TOKEN_HEADER: &'static str = "X-Mail-Token";

/// The two routing tables.
#[derive(Clone, Copy, Debug, PartialEq, Eq, Structural)]
pub enum MapType {
    /// From an alias address to the account that it stands for.
    Aliases,
    /// From an account to the transport that takes its mail.
    Transport,
}

/// An answer of the remote endpoint: its HTTP status and its body as text.
#[derive(Debug)]
pub struct Response {
    pub status: u16,
    pub body: String,
}

/// A table to replace: the file at `path` is to hold `content` and nothing
/// else.
#[derive(Debug, PartialEq, Eq)]
pub struct TableWrite {
    pub path: String,
    pub content: Vec<u8>,
}

/// The content of the two table files, as contracts see it.
pub struct Tables {
    pub aliases: Seq<u8>,
    pub transport: Seq<u8>,
}

/// The table files after the table `kind` was written with `content`: that
/// table holds `content` and nothing else, the other one is as it was.
pub open spec fn written(tables: Tables, kind: MapType, content: Seq<u8>) -> Tables {
    match kind {
        MapType::Aliases => Tables { aliases: content, ..tables },
        MapType::Transport => Tables { transport: content, ..tables },
    }
}

/// What the table `kind` holds.
pub open spec fn read(tables: Tables, kind: MapType) -> Seq<u8> {
    match kind {
        MapType::Aliases => tables.aliases,
        MapType::Transport => tables.transport,
    }
}

/// A table that was written holds just what was written last, whatever it
/// held before, and a write to one table leaves the other alone.
pub proof fn lemma_written_is_read(
    tables: Tables,
    kind: MapType,
    other: MapType,
    earlier: Seq<u8>,
    content: Seq<u8>,
)
    ensures
        read(written(tables, kind, content), kind) == content,
        read(written(written(tables, kind, earlier), kind, content), kind) == content,
        other != kind ==> read(written(tables, kind, content), other) == read(tables, other),
{
}

/// Whether an HTTP status says that the call succeeded.
pub open spec fn succeeded(status: u16) -> bool {
    200 <= status <= 299
}

/// The address of the remote endpoint's service `name` on `host`.
pub open spec fn endpoint_url(host: Seq<char>, name: Seq<char>) -> Seq<char> {
    "https://"@ + host + "/mail_delivery/"@ + name
}

/// What an answer of the endpoint amounts to: its body where the call
/// succeeded, else the error of its status with its body as details.
pub open spec fn answer(status: u16, body: Seq<char>) -> Result<Seq<char>, (u16, Seq<char>)> {
    if succeeded(status) {
        Ok(body)
    } else {
        Err((bucket(status), body))
    }
}

/// A text or an error, as contracts see it.
pub open spec fn result_view(r: Result<String, HttpError>) -> Result<Seq<char>, (u16, Seq<char>)> {
    match r {
        Ok(text) => Ok(text@),
        Err(e) => Err(e@),
    }
}

/// The line of the transport table for `key`: the key, a space, and the
/// LMTP socket at `socket` as the transport.
pub open spec fn transport_line(key: Seq<u8>, socket: Seq<char>) -> Seq<u8> {
    key + utf8(" lmtp:unix:"@) + utf8(socket)
}

/// The address of the remote endpoint's service `name`.
pub fn endpoint(config: &Config, name: &str) -> (url: String)
    ensures
        url@ == endpoint_url(config.host@, name@),
{
    "https://".to_owned().concat(config.host.as_str()).concat("/mail_delivery/").concat(name)
}

/// The line of the transport table for `key`.
pub fn transport_entry(key: &[u8], socket: &str) -> (line: Vec<u8>)
    ensures
        line@ == transport_line(key@, socket@),
{
    let mut line = slice_to_vec(key);
    append(&mut line, " lmtp:unix:".as_bytes());
    append(&mut line, socket.as_bytes());
    line
}

impl Response {
    /// Whether the call succeeded: the status is one of 200 to 299.
    pub fn ok(&self) -> (ok: bool)
        ensures
            ok == succeeded(self.status),
    {
        200 <= self.status && self.status <= 299
    }

    /// The body where the call succeeded, else the error of the status
    /// with the body as details.
    pub fn into_result(self) -> (r: Result<String, HttpError>)
        ensures
            result_view(r) == answer(self.status, self.body@),
    {
        if self.ok() {
            Ok(self.body)
        } else {
            Err(HttpError::new(self.status, self.body.as_str()))
        }
    }
}

impl MapType {
    /// The name of the table at the remote endpoint.
    pub open spec fn remote_name(self) -> Seq<char> {
        match self {
            MapType::Aliases => "aliases"@,
            MapType::Transport => "transport"@,
        }
    }

    /// The path of the table's file under the settings `config`.
    pub open spec fn table_path(self, config: Config) -> Seq<char> {
        match self {
            MapType::Aliases => config.aliases@,
            MapType::Transport => config.transport@,
        }
    }

    /// The address that the table is fetched from. The request carries the
    /// shared token in the header `TOKEN_HEADER`.
    pub fn url(&self, config: &Config) -> (url: String)
        ensures
            url@ == endpoint_url(config.host@, self.remote_name()),
    {
        match self {
            MapType::Aliases => endpoint(config, "aliases"),
            MapType::Transport => endpoint(config, "transport"),
        }
    }

    /// What a fetch of the table yields, given the answer that came from
    /// the address `url`: the table's text where the call succeeded, else
    /// the error of the status.
    pub fn get(&self, response: Response) -> (r: Result<String, HttpError>)
        ensures
            result_view(r) == answer(response.status, response.body@),
    {
        response.into_result()
    }

    /// The write that replaces the table by `buf`: the whole of `buf` goes
    /// to the table's file, which is cut to nothing first. The index of the
    /// file is rebuilt after the write.
    pub fn write(&self, config: &Config, buf: &[u8]) -> (w: TableWrite)
        ensures
            w.path@ == self.table_path(*config),
            w.content@ == buf@,
    {
        let path = match self {
            MapType::Aliases => config.aliases.clone(),
            MapType::Transport => config.transport.clone(),
        };
        TableWrite { path, content: slice_to_vec(buf) }
    }
}

/// How the program ends: its exit code, and the line that it prints on the
/// standard output or on the standard error.
#[derive(Debug, PartialEq, Eq)]
pub struct Exit {
    pub code: i32,
    pub out: Option<String>,
    pub err: Option<String>,
}

/// The line that reports a command's message: the status `100` before it.
pub open spec fn success_line(message: Seq<char>) -> Seq<char> {
    "100 "@ + message
}

/// How the program ends, given how its command ended: with 0 after
/// success, and with the command's message, if it left one, on the standard
/// output behind the status `100`; with 1 after a failure, and with the
/// text of the error on the standard error.
pub fn conclude(result: Result<Option<String>, String>) -> (exit: Exit)
    ensures
        match result {
            Ok(Some(message)) => exit.code == 0 && exit.err.is_none() && exit.out.is_some()
                && exit.out.unwrap()@ == success_line(message@),
            Ok(None) => exit.code == 0 && exit.out.is_none() && exit.err.is_none(),
            Err(error) => exit.code == 1 && exit.out.is_none() && exit.err.is_some()
                && exit.err.unwrap()@ == error@,
        },
{
    match result {
        Ok(Some(message)) => Exit {
            code: 0,
            out: Some("100 ".to_owned().concat(message.as_str())),
            err: None,
        },
        Ok(None) => Exit { code: 0, out: None, err: None },
        Err(error) => Exit { code: 1, out: None, err: Some(error) },
    }
}

/// Why the index of a table was not rebuilt.
#[derive(Clone, Copy, Debug, PartialEq, Eq, Structural)]
pub enum RebuildError {
    /// The index builder ended with this status, which is not 0.
    Status(i32),
    /// The index builder was ended by a signal and left no status.
    Signal,
}

/// Whether the index of a table was rebuilt, given how the index builder
/// ended: it was where the builder left the status 0, and in no other case.
pub open spec fn rebuild_result(exit: Option<i32>) -> Result<(), RebuildError> {
    match exit {
        Some(code) => if code == 0 {
            Ok(())
        } else {
            Err(RebuildError::Status(code))
        },
        None => Err(RebuildError::Signal),
    }
}

/// The text of a failed rebuild.
pub open spec fn rebuild_text(error: RebuildError) -> Seq<char> {
    match error {
        RebuildError::Status(code) => INDEX_BUILDER@ + " failed with status "@ + signed_decimal(
            code as int,
        ),
        RebuildError::Signal => INDEX_BUILDER@ + " was ended by a signal"@,
    }
}

/// Whether the index of a table was rebuilt, given how the index builder
/// ended: `exit` is its status, or `None` where a signal ended it. A
/// rebuild that failed is an error of the write that asked for it.
pub fn rebuilt(exit: Option<i32>) -> (r: Result<(), RebuildError>)
    ensures
        r == rebuild_result(exit),
{
    match exit {
        Some(code) => {
            if code == 0 {
                Ok(())
            } else {
                Err(RebuildError::Status(code))
            }
        },
        None => Err(RebuildError::Signal),
    }
}

impl RebuildError {
    /// The error as one line.
    pub fn to_string(&self) -> (line: String)
        ensures
            line@ == rebuild_text(*self),
    {
        match self {
            RebuildError::Status(code) => INDEX_BUILDER.to_owned().concat(
                " failed with status ",
            ).concat(to_signed_decimal(*code).as_str()),
            RebuildError::Signal => INDEX_BUILDER.to_owned().concat(" was ended by a signal"),
        }
    }
}

} // verus!
