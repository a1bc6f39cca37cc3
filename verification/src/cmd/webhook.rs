//! The webhook: a request that carries a new routing document is screened,
//! its document is read, and both routing tables are built anew from it.

use crate::args::Webhook;
use crate::config::Config;
use crate::text::{
    after_first, append, decimal, find, first_field, first_index, joined, lemma_first_index,
    same_ignoring_case, same_text, same_text_ignoring_case, second_field, to_decimal, utf8, AT,
    SPACE,
};
use crate::utils::{transport_entry, transport_line, written, MapType, TableWrite, Tables};
use std::collections::BTreeMap;
use vstd::prelude::*;
use vstd::slice::slice_subrange;
use vstd::string::StringExecFns;

verus! {

/// The name of the header that says what the body is.
pub const CONTENT_TYPE: &'static str = "content-type";

/// The only content type that is taken.
pub const YAML: &'static str = "application/yaml";

/// The name of the header that carries the shared token.
pub const TOKEN: &'static str = "x-mail-token";

/// The byte between two lines of a table.
pub const NEWLINE: u8 = 0x0a;

/// How deep a body may nest, by the measure `nesting_bound`, to be read as
/// a routing document at all. A routing document itself nests two deep; the
/// limit leaves room for any number of brackets on lines that begin with
/// up to 24 blanks, and for 279 blanks where there are no brackets.
pub const MAX_NESTING: usize = 560;

/// The most brackets that the YAML reader takes one in another before it
/// reports an error of its own.
pub const MAX_FLOW: usize = 255;

/// The carriage return.
pub const RETURN: u8 = 0x0d;

/// Why a body that nests too deep is no routing document.
pub const TOO_DEEP: &'static str = "the document nests too deep";

/// One header of a request.
#[derive(Debug)]
pub struct Header {
    pub field: String,
    pub value: String,
}

/// What is known of a request before its body is read.
#[derive(Debug)]
pub struct Request {
    /// Whether the method is POST.
    pub post: bool,
    /// The path that was asked for.
    pub url: String,
    /// The headers, in the order in which they came.
    pub headers: Vec<Header>,
}

/// One account of a routing document, with the aliases that stand for it.
#[derive(Debug, PartialEq, Eq)]
pub struct Account {
    pub name: String,
    pub aliases: Vec<String>,
}

/// The new content of both routing tables.
#[derive(Debug, PartialEq, Eq)]
pub struct TableUpdate {
    pub aliases: Vec<u8>,
    pub transport: Vec<u8>,
}

/// What becomes of a request.
#[derive(Debug, PartialEq, Eq)]
pub enum Reply {
    /// Not a POST to the served path: answered with 404.
    NotFound,
    /// No YAML body was announced: the request is let go without an answer
    /// of the webhook's own, and its body is never read.
    Ignored,
    /// The token is missing or wrong: answered with 401, and the body is
    /// never read.
    Unauthorized,
    /// The body is no routing document: the tables stay as they are, and
    /// the request is answered with 200.
    Malformed,
    /// Both tables are replaced, and the request is answered with 200.
    Updated(TableUpdate),
}

/// An account, as contracts see it.
pub struct Entry {
    pub name: Seq<char>,
    pub aliases: Seq<Seq<char>>,
}

/// What becomes of a request, as contracts see it.
pub enum Decision {
    NotFound,
    Ignored,
    Unauthorized,
    Malformed,
    Updated { aliases: Seq<u8>, transport: Seq<u8> },
}

impl View for Account {
    type V = Entry;

    open spec fn view(&self) -> Entry {
        Entry {
            name: self.name@,
            aliases: Seq::new(self.aliases@.len(), |i: int| self.aliases@[i]@),
        }
    }
}

impl View for Reply {
    type V = Decision;

    open spec fn view(&self) -> Decision {
        match self {
            Reply::NotFound => Decision::NotFound,
            Reply::Ignored => Decision::Ignored,
            Reply::Unauthorized => Decision::Unauthorized,
            Reply::Malformed => Decision::Malformed,
            Reply::Updated(update) => Decision::Updated {
                aliases: update.aliases@,
                transport: update.transport@,
            },
        }
    }
}

/// The accounts of a document, as contracts see them.
pub open spec fn entries(document: Seq<Account>) -> Seq<Entry> {
    Seq::new(document.len(), |i: int| document[i]@)
}

/// The accounts that the YAML text `body` holds, in the order of their
/// names, or `None` where the text is no mapping from account names to
/// lists of aliases. This is what `serde_yaml::from_str` makes of the text
/// when it is asked for a `BTreeMap<String, Vec<String>>`.
pub uninterp spec fn yaml_accounts(body: Seq<char>) -> Option<Seq<Entry>>;

/// Whether `b` is a blank or one of the signs `-`, `?` and `:`, which open
/// the collections of block style.
pub open spec fn opens_block(b: u8) -> bool {
    b == 0x20 || b == 0x09 || b == 0x2d || b == 0x3f || b == 0x3a
}

/// How many blanks and block signs the line `l` begins with.
pub open spec fn lead(l: Seq<u8>) -> nat
    decreases l.len(),
{
    if l.len() == 0 || !opens_block(l[0]) {
        0
    } else {
        1 + lead(l.skip(1))
    }
}

/// Whether the line `l` holds a carriage return before its last byte. The
/// YAML reader takes such a return for the end of a line, but goes on
/// counting columns.
pub open spec fn lone_return(l: Seq<u8>) -> bool {
    exists|i: int| 0 <= i < l.len() - 1 && l[i] == RETURN
}

/// The rightmost column of the line `l` at which a collection of block
/// style can begin: behind the blanks and block signs that the line begins
/// with. A line with a carriage return inside counts in full.
pub open spec fn reach(l: Seq<u8>) -> nat {
    if lone_return(l) {
        l.len()
    } else {
        lead(l)
    }
}

/// The greatest `reach` of the lines of `s`, which line feeds separate.
pub open spec fn max_reach(s: Seq<u8>) -> nat
    decreases s.len(),
{
    let end = first_index(s, NEWLINE);
    if 0 <= end < s.len() {
        if reach(s.take(end)) >= max_reach(s.skip(end + 1)) {
            reach(s.take(end))
        } else {
            max_reach(s.skip(end + 1))
        }
    } else {
        reach(s)
    }
}

/// Whether `b` opens a bracketed collection of YAML.
pub open spec fn opens_flow(b: u8) -> bool {
    b == 0x5b || b == 0x7b
}

/// How many bytes of `s` open a bracketed collection.
pub open spec fn openers(s: Seq<u8>) -> nat
    decreases s.len(),
{
    if s.len() == 0 {
        0
    } else if opens_flow(s.last()) {
        openers(s.drop_last()) + 1
    } else {
        openers(s.drop_last())
    }
}

/// A bound on how deep the collections of a YAML text lie one in another.
/// It does not grow with the length of a scalar or of a list.
///
/// A collection of block style begins at a column of its line that no
/// collection around it has, and only where blanks and block signs alone
/// stand before it; a mapping and a sequence can share a column. So there
/// are no more than two for each column up to `max_reach`. A bracketed
/// collection takes a bracket, the reader takes no more than `MAX_FLOW`
/// brackets one in another, and each can hold a mapping without a bracket
/// of its own. So there are no more than two for each bracket.
pub open spec fn nesting_bound(s: Seq<u8>) -> nat {
    2 * (max_reach(s) + 1) + 2 * if openers(s) <= MAX_FLOW {
        openers(s)
    } else {
        MAX_FLOW as nat
    }
}

/// Whether a body is flat enough to be handed to the YAML reader.
pub open spec fn shallow(s: Seq<u8>) -> bool {
    nesting_bound(s) <= MAX_NESTING
}

/// Whether a header's name is `key`, whatever the case of its letters.
pub open spec fn names(field: Seq<char>, key: Seq<char>) -> bool {
    same_ignoring_case(utf8(field), utf8(key))
}

/// The value of the first header whose name is `key`.
pub open spec fn header_value(headers: Seq<Header>, key: Seq<char>) -> Option<Seq<char>>
    decreases headers.len(),
{
    if headers.len() == 0 {
        None
    } else if names(headers[0].field@, key) {
        Some(headers[0].value@)
    } else {
        header_value(headers.skip(1), key)
    }
}

/// Whether the request is a POST to the path `prefix`.
pub open spec fn served(prefix: Seq<char>, request: Request) -> bool {
    request.post && request.url@ == prefix
}

/// Whether the request announces a YAML body.
pub open spec fn announces_yaml(request: Request) -> bool {
    header_value(request.headers@, CONTENT_TYPE@) == Some(YAML@)
}

/// Whether the request carries the token `token`.
pub open spec fn authorized(token: Seq<char>, request: Request) -> bool {
    header_value(request.headers@, TOKEN@) == Some(token)
}

/// What is decided on a request before its body is read: `None` where the
/// body has to be read.
pub open spec fn screened(token: Seq<char>, prefix: Seq<char>, request: Request) -> Option<
    Decision,
> {
    if !served(prefix, request) {
        Some(Decision::NotFound)
    } else if !announces_yaml(request) {
        Some(Decision::Ignored)
    } else if !authorized(token, request) {
        Some(Decision::Unauthorized)
    } else {
        None
    }
}

/// The domain of an account: what stands in its name behind the first `@`,
/// up to the next `@` if there is one; nothing where the name holds no `@`.
pub open spec fn domain_of(name: Seq<u8>) -> Seq<u8> {
    match second_field(name, AT) {
        Some(domain) => domain,
        None => Seq::empty(),
    }
}

/// The line of the alias table that sends `alias`, in the domain of the
/// account `name`, to that account.
pub open spec fn alias_line(alias: Seq<u8>, name: Seq<u8>) -> Seq<u8> {
    alias + seq![AT] + domain_of(name) + seq![SPACE] + name
}

/// The lines of the alias table for one account, one for each alias, with
/// a line feed between each two.
pub open spec fn alias_block(entry: Entry) -> Seq<u8> {
    joined(
        Seq::new(
            entry.aliases.len(),
            |i: int| alias_line(utf8(entry.aliases[i]), utf8(entry.name)),
        ),
        seq![NEWLINE],
    )
}

/// The alias table for a document: the lines of each account, with a line
/// feed between each two accounts.
pub open spec fn alias_table(document: Seq<Entry>) -> Seq<u8> {
    joined(Seq::new(document.len(), |i: int| alias_block(document[i])), seq![NEWLINE])
}

/// The transport table for a document: one line for each account, which
/// names the LMTP socket at `socket` as its transport.
pub open spec fn transport_table(document: Seq<Entry>, socket: Seq<char>) -> Seq<u8> {
    joined(
        Seq::new(document.len(), |i: int| transport_line(utf8(document[i].name), socket)),
        seq![NEWLINE],
    )
}

/// The accounts that a body is read as: none where the body nests too
/// deep by the measure `nesting_bound`, and none where the YAML reader
/// finds no routing document in it.
pub open spec fn document_of(body: Seq<char>) -> Option<Seq<Entry>> {
    if shallow(utf8(body)) {
        yaml_accounts(body)
    } else {
        None
    }
}

/// What becomes of a request that passed the screening, given its body.
pub open spec fn digested(socket: Seq<char>, body: Seq<char>) -> Decision {
    match document_of(body) {
        Some(document) => Decision::Updated {
            aliases: alias_table(document),
            transport: transport_table(document, socket),
        },
        None => Decision::Malformed,
    }
}

/// What becomes of a request with the body `body`.
pub open spec fn handled(
    config: Config,
    prefix: Seq<char>,
    request: Request,
    body: Seq<char>,
) -> Decision {
    match screened(config.token@, prefix, request) {
        Some(decision) => decision,
        None => digested(config.socket@, body),
    }
}

/// The status that a request is answered with, if the webhook answers it.
pub open spec fn status_of(decision: Decision) -> Option<u16> {
    match decision {
        Decision::NotFound => Some(404),
        Decision::Ignored => None,
        Decision::Unauthorized => Some(401),
        Decision::Malformed => Some(200),
        Decision::Updated { .. } => Some(200),
    }
}

/// The table files after a request with the given decision: both replaced
/// as a whole where the decision brings new tables, else as they were.
pub open spec fn applied(tables: Tables, decision: Decision) -> Tables {
    match decision {
        Decision::Updated { aliases, transport } => Tables { aliases, transport },
        _ => tables,
    }
}

/// The address that the webhook listens on: every interface, at `port`.
pub open spec fn listen_address(port: u16) -> Seq<char> {
    "0.0.0.0:"@ + decimal(port as nat)
}

/// The error of `serde_yaml`: what it found wrong with a text.
#[verifier::external_type_specification]
#[verifier::external_body]
pub struct ExYamlError(serde_yaml::Error);

/// Reads a routing document with `serde_yaml::from_str`, as a
/// `BTreeMap<String, Vec<String>>` whose entries are handed out in the
/// order of their keys. The contract claims that the outcome is a function
/// of the text alone, and gives that function the name `yaml_accounts`:
/// the accounts on success, `None` where `serde_yaml` reports an error.
///
/// The reader first loads the whole text, and its loader calls itself once
/// for each collection that lies in another. It has no limit of its own for
/// collections in block style, so a text that nests deep enough runs it
/// out of stack. Texts that `nesting_bound` puts beyond `MAX_NESTING` are
/// therefore left out.
#[verifier::external_body]
fn parse_accounts(body: &str) -> (parsed: Result<Vec<Account>, serde_yaml::Error>)
    requires
        shallow(utf8(body@)),
    ensures
        match parsed {
            Ok(document) => yaml_accounts(body@) == Some(entries(document@)),
            Err(_) => yaml_accounts(body@).is_none(),
        },
{
    let map = serde_yaml::from_str::<BTreeMap<String, Vec<String>>>(body)?;
    Ok(map.into_iter().map(|(name, aliases)| Account { name, aliases }).collect())
}

/// The text of an error of `serde_yaml`, as its `Display` gives it. Nothing
/// is claimed of the text.
#[verifier::external_body]
fn complaint(error: &serde_yaml::Error) -> String {
    error.to_string()
}

/// The value of the first header whose name is `key`, whatever the case of
/// its letters.
pub fn get_header<'a>(headers: &'a [Header], key: &str) -> (value: Option<&'a str>)
    ensures
        match value {
            Some(v) => header_value(headers@, key@) == Some(v@),
            None => header_value(headers@, key@).is_none(),
        },
{
    let mut i: usize = 0;
    assert(headers@.skip(0) =~= headers@);
    while i < headers.len()
        invariant
            i <= headers.len(),
            header_value(headers@, key@) == header_value(headers@.skip(i as int), key@),
        decreases headers.len() - i,
    {
        let ghost rest = headers@.skip(i as int);
        assert(rest[0] == headers@[i as int]);
        if same_text_ignoring_case(headers[i].field.as_str(), key) {
            return Some(headers[i].value.as_str());
        }
        assert(rest.skip(1) =~= headers@.skip(i + 1));
        i += 1;
    }
    None
}

/// Whether a header named `key` is there and holds exactly `wanted`.
fn header_is(headers: &[Header], key: &str, wanted: &str) -> (found: bool)
    ensures
        found == (header_value(headers@, key@) == Some(wanted@)),
{
    match get_header(headers, key) {
        Some(value) => same_text(value, wanted),
        None => false,
    }
}

/// Decides on a request from what is known before its body is read. The
/// outcome is `None` where the request is a POST to the served path that
/// announces YAML and carries the token: its body is to be read and handed
/// to `cmd`. Any other request is settled here, and its body stays unread.
pub fn screen(config: &Config, args: &Webhook, request: &Request) -> (early: Option<Reply>)
    ensures
        match early {
            Some(reply) => screened(config.token@, args.prefix@, *request) == Some(reply@),
            None => screened(config.token@, args.prefix@, *request).is_none(),
        },
{
    if !(request.post && same_text(request.url.as_str(), args.prefix.as_str())) {
        Some(Reply::NotFound)
    } else if !header_is(request.headers.as_slice(), CONTENT_TYPE, YAML) {
        Some(Reply::Ignored)
    } else if !header_is(request.headers.as_slice(), TOKEN, config.token.as_str()) {
        Some(Reply::Unauthorized)
    } else {
        None
    }
}

/// The domain of an account.
pub fn domain(name: &[u8]) -> (d: &[u8])
    ensures
        d@ == domain_of(name@),
{
    match after_first(name, AT) {
        Some(rest) => first_field(rest, AT),
        None => {
            let d = slice_subrange(name, 0, 0);
            assert(d@ =~= Seq::<u8>::empty());
            d
        },
    }
}

/// `joined` grows by one part at a time.
proof fn lemma_joined_next(parts: Seq<Seq<u8>>, sep: Seq<u8>, i: int)
    requires
        0 <= i < parts.len(),
    ensures
        joined(parts.take(i + 1), sep) == if i == 0 {
            parts[0]
        } else {
            joined(parts.take(i), sep) + sep + parts[i]
        },
{
    let upto = parts.take(i + 1);
    assert(upto.last() == parts[i]);
    assert(upto.drop_last() =~= parts.take(i));
    if i == 0 {
        assert(upto[0] == parts[0]);
    }
}

/// Puts the lines of the alias table for one account at the end of `out`.
fn push_alias_block(out: &mut Vec<u8>, account: &Account)
    ensures
        final(out)@ == old(out)@ + alias_block(account@),
{
    let name = account.name.as_str().as_bytes();
    let d = domain(name);
    let ghost lines = Seq::new(
        account@.aliases.len(),
        |i: int| alias_line(utf8(account@.aliases[i]), utf8(account@.name)),
    );
    let ghost start = out@;
    let mut i: usize = 0;
    assert(lines.take(0) =~= Seq::<Seq<u8>>::empty());
    assert(out@ =~= start + joined(lines.take(0), seq![NEWLINE]));
    while i < account.aliases.len()
        invariant
            i <= account.aliases.len(),
            lines.len() == account.aliases.len(),
            lines == Seq::new(
                account@.aliases.len(),
                |i: int| alias_line(utf8(account@.aliases[i]), utf8(account@.name)),
            ),
            name@ == utf8(account.name@),
            d@ == domain_of(name@),
            out@ == start + joined(lines.take(i as int), seq![NEWLINE]),
        decreases account.aliases.len() - i,
    {
        let ghost before = out@;
        if i > 0 {
            out.push(NEWLINE);
        }
        append(out, account.aliases[i].as_str().as_bytes());
        out.push(AT);
        append(out, d);
        out.push(SPACE);
        append(out, name);
        proof {
            lemma_joined_next(lines, seq![NEWLINE], i as int);
            let line = lines[i as int];
            assert(line == alias_line(utf8(account.aliases@[i as int]@), name@));
            if i > 0 {
                assert(out@ =~= before + seq![NEWLINE] + line);
            } else {
                assert(out@ =~= before + line);
                assert(joined(lines.take(0), seq![NEWLINE]) =~= Seq::<u8>::empty());
            }
            assert(out@ =~= start + joined(lines.take(i + 1), seq![NEWLINE]));
        }
        i += 1;
    }
    assert(lines.take(lines.len() as int) =~= lines);
}

/// The new content of both tables for a routing document: in the alias
/// table one line for each alias of each account, in the transport table
/// one line for each account, in the order of the document.
pub fn update_for(config: &Config, document: &Vec<Account>) -> (update: TableUpdate)
    ensures
        update.aliases@ == alias_table(entries(document@)),
        update.transport@ == transport_table(entries(document@), config.socket@),
{
    let ghost doc = entries(document@);
    let ghost blocks = Seq::new(doc.len(), |i: int| alias_block(doc[i]));
    let ghost routes = Seq::new(
        doc.len(),
        |i: int| transport_line(utf8(doc[i].name), config.socket@),
    );
    let mut aliases: Vec<u8> = Vec::new();
    let mut transport: Vec<u8> = Vec::new();
    let mut i: usize = 0;
    assert(blocks.take(0) =~= Seq::<Seq<u8>>::empty());
    assert(routes.take(0) =~= Seq::<Seq<u8>>::empty());
    while i < document.len()
        invariant
            i <= document.len(),
            doc == entries(document@),
            blocks == Seq::new(doc.len(), |i: int| alias_block(doc[i])),
            routes == Seq::new(
                doc.len(),
                |i: int| transport_line(utf8(doc[i].name), config.socket@),
            ),
            aliases@ == joined(blocks.take(i as int), seq![NEWLINE]),
            transport@ == joined(routes.take(i as int), seq![NEWLINE]),
        decreases document.len() - i,
    {
        let ghost a0 = aliases@;
        let ghost t0 = transport@;
        if i > 0 {
            aliases.push(NEWLINE);
            transport.push(NEWLINE);
        }
        push_alias_block(&mut aliases, &document[i]);
        let route = transport_entry(
            document[i].name.as_str().as_bytes(),
            config.socket.as_str(),
        );
        append(&mut transport, route.as_slice());
        proof {
            lemma_joined_next(blocks, seq![NEWLINE], i as int);
            lemma_joined_next(routes, seq![NEWLINE], i as int);
            assert(doc[i as int] == document@[i as int]@);
            if i > 0 {
                assert(aliases@ =~= a0 + seq![NEWLINE] + blocks[i as int]);
                assert(transport@ =~= t0 + seq![NEWLINE] + routes[i as int]);
            } else {
                assert(a0 =~= Seq::<u8>::empty());
                assert(t0 =~= Seq::<u8>::empty());
                assert(aliases@ =~= blocks[0]);
                assert(transport@ =~= routes[0]);
            }
        }
        i += 1;
    }
    assert(blocks.take(blocks.len() as int) =~= blocks);
    assert(routes.take(routes.len() as int) =~= routes);
    TableUpdate { aliases, transport }
}

/// What becomes of a request that passed the screening, given what its
/// body was read as: new tables for a routing document, and nothing but
/// the answer where the body was none.
pub fn settle(config: &Config, document: Option<&Vec<Account>>) -> (reply: Reply)
    ensures
        reply@ == match document {
            Some(d) => Decision::Updated {
                aliases: alias_table(entries(d@)),
                transport: transport_table(entries(d@), config.socket@),
            },
            None => Decision::Malformed,
        },
{
    match document {
        Some(d) => Reply::Updated(update_for(config, d)),
        None => Reply::Malformed,
    }
}

/// How many blanks and block signs a line begins with, or its length
/// where it holds a carriage return before its last byte.
fn line_reach(l: &[u8]) -> (r: usize)
    ensures
        r == reach(l@),
        r <= l.len(),
{
    let mut i: usize = 0;
    let mut found: bool = false;
    while i < l.len()
        invariant
            i <= l.len(),
            found == (exists|j: int| 0 <= j < i && j < l.len() - 1 && l@[j] == RETURN),
        decreases l.len() - i,
    {
        if l[i] == RETURN && i + 1 < l.len() {
            found = true;
        }
        i += 1;
    }
    if found {
        return l.len();
    }
    let mut k: usize = 0;
    assert(l@.skip(0) =~= l@);
    while k < l.len() && is_block_sign(l[k])
        invariant
            k <= l.len(),
            lead(l@) == k + lead(l@.skip(k as int)),
        decreases l.len() - k,
    {
        assert(l@.skip(k as int)[0] == l@[k as int]);
        assert(l@.skip(k as int).skip(1) =~= l@.skip(k + 1));
        k += 1;
    }
    proof {
        if k < l.len() {
            assert(l@.skip(k as int)[0] == l@[k as int]);
        }
    }
    k
}

/// Whether a byte is a blank or a block sign.
fn is_block_sign(b: u8) -> (sign: bool)
    ensures
        sign == opens_block(b),
{
    b == 0x20 || b == 0x09 || b == 0x2d || b == 0x3f || b == 0x3a
}

/// The greatest `reach` of the lines of a body.
fn body_reach(body: &[u8]) -> (r: usize)
    ensures
        r == max_reach(body@),
        r <= body.len(),
{
    let mut best: usize = 0;
    let mut pos: usize = 0;
    let mut done: bool = false;
    assert(body@.skip(0) =~= body@);
    while !done
        invariant
            pos <= body.len(),
            best <= body.len(),
            !done ==> max_reach(body@) == if best >= max_reach(body@.skip(pos as int)) {
                best as nat
            } else {
                max_reach(body@.skip(pos as int))
            },
            done ==> max_reach(body@) == best,
        decreases body.len() - pos + if done { 0int } else { 1int },
    {
        let rest = slice_subrange(body, pos, body.len());
        assert(rest@ =~= body@.skip(pos as int));
        let end: usize = find(rest, NEWLINE);
        proof {
            lemma_first_index(rest@, NEWLINE);
        }
        let line = slice_subrange(rest, 0, end);
        assert(line@ =~= rest@.take(end as int));
        let r: usize = line_reach(line);
        if r > best {
            best = r;
        }
        if end < rest.len() {
            assert(rest@.skip(end + 1) =~= body@.skip(pos + end + 1));
            pos = pos + end + 1;
        } else {
            assert(line@ =~= rest@);
            done = true;
        }
    }
    best
}

/// How many bytes of a body open a bracketed collection.
fn count_openers(body: &[u8]) -> (open: usize)
    ensures
        open == openers(body@),
        open <= body.len(),
{
    let mut open: usize = 0;
    let mut i: usize = 0;
    assert(body@.take(0) =~= Seq::<u8>::empty());
    while i < body.len()
        invariant
            i <= body.len(),
            open == openers(body@.take(i as int)),
            open <= i,
        decreases body.len() - i,
    {
        let b: u8 = body[i];
        proof {
            let upto = body@.take(i + 1);
            assert(upto.last() == b);
            assert(upto.drop_last() =~= body@.take(i as int));
        }
        if b == 0x5b || b == 0x7b {
            open += 1;
        }
        i += 1;
    }
    assert(body@.take(body.len() as int) =~= body@);
    open
}

/// Whether a body is flat enough to be handed to the YAML reader.
pub fn is_shallow(body: &[u8]) -> (flat: bool)
    ensures
        flat == shallow(body@),
{
    let r: usize = body_reach(body);
    let open: usize = count_openers(body);
    if r > MAX_NESTING {
        false
    } else {
        let flow: usize = if open <= MAX_FLOW {
            open
        } else {
            MAX_FLOW
        };
        2 * (r + 1) + 2 * flow <= MAX_NESTING
    }
}

/// The accounts that a body is read as, or the reason why it is no
/// routing document. A body that nests too deep is not handed to the YAML
/// reader at all, and the reason is `TOO_DEEP`; for any other body the
/// reason is what the YAML reader says.
pub fn read_document(body: &str) -> (document: Result<Vec<Account>, String>)
    ensures
        match document {
            Ok(d) => document_of(body@) == Some(entries(d@)),
            Err(reason) => document_of(body@).is_none() && (!shallow(utf8(body@)) ==> reason@
                == TOO_DEEP@),
        },
{
    if is_shallow(body.as_bytes()) {
        match parse_accounts(body) {
            Ok(document) => Ok(document),
            Err(error) => Err(complaint(&error)),
        }
    } else {
        Err(TOO_DEEP.to_owned())
    }
}

/// What becomes of a request that passed the screening, given its body:
/// new tables where the body is a routing document, else nothing but the
/// answer.
pub fn digest(config: &Config, body: &str) -> (reply: Reply)
    ensures
        reply@ == digested(config.socket@, body@),
{
    match read_document(body) {
        Ok(document) => settle(config, Some(&document)),
        Err(_) => settle(config, None),
    }
}

/// What becomes of one request to the webhook, given its body. The body
/// counts only for a request that `screen` lets through.
pub fn cmd(config: &Config, args: &Webhook, request: &Request, body: &str) -> (reply: Reply)
    ensures
        reply@ == handled(*config, args.prefix@, *request, body@),
{
    match screen(config, args, request) {
        Some(reply) => reply,
        None => digest(config, body),
    }
}

/// The address that the webhook listens on.
pub fn address(args: &Webhook) -> (addr: String)
    ensures
        addr@ == listen_address(args.port),
{
    let port = to_decimal(args.port as u64);
    "0.0.0.0:".to_owned().concat(port.as_str())
}

impl Reply {
    /// The status that the request is answered with: 404, 401 or 200, and
    /// `None` for a request that the webhook lets go unanswered.
    pub fn status(&self) -> (status: Option<u16>)
        ensures
            status == status_of(self@),
    {
        match self {
            Reply::NotFound => Some(404),
            Reply::Ignored => None,
            Reply::Unauthorized => Some(401),
            Reply::Malformed => Some(200),
            Reply::Updated(_) => Some(200),
        }
    }

    /// The writes to carry out before the request is answered, in their
    /// order: the alias table, and behind it the transport table, where the
    /// reply brings new tables; none for any other reply.
    pub fn writes(&self, config: &Config) -> (writes: Vec<TableWrite>)
        ensures
            match self@ {
                Decision::Updated { aliases, transport } => {
                    &&& writes@.len() == 2
                    &&& writes@[0].path@ == config.aliases@
                    &&& writes@[0].content@ == aliases
                    &&& writes@[1].path@ == config.transport@
                    &&& writes@[1].content@ == transport
                },
                _ => writes@.len() == 0,
            },
    {
        let mut writes: Vec<TableWrite> = Vec::new();
        match self {
            Reply::Updated(update) => {
                writes.push(MapType::Aliases.write(config, update.aliases.as_slice()));
                writes.push(MapType::Transport.write(config, update.transport.as_slice()));
            },
            _ => {},
        }
        writes
    }
}

/// A body is flat enough for the YAML reader, however long its lines and
/// however many accounts it lists, when none of its lines begins with more
/// than 24 blanks and block signs; without brackets, 279 will do.
pub proof fn lemma_ordinary_bodies_are_shallow(s: Seq<u8>)
    ensures
        max_reach(s) <= 24 ==> shallow(s),
        openers(s) == 0 && max_reach(s) <= 279 ==> shallow(s),
{
}

/// The writes of a reply, carried out one by one on the table model, leave
/// the tables as `applied` says.
pub proof fn lemma_applied_is_two_writes(tables: Tables, aliases: Seq<u8>, transport: Seq<u8>)
    ensures
        applied(tables, Decision::Updated { aliases, transport }) == written(
            written(tables, MapType::Aliases, aliases),
            MapType::Transport,
            transport,
        ),
{
}

/// The same request with the same body, handled twice, leaves the tables
/// as the first handling left them: what is written depends on the
/// settings, the request and the body alone, never on what the tables
/// held.
pub proof fn lemma_same_document_twice(
    config: Config,
    prefix: Seq<char>,
    request: Request,
    body: Seq<char>,
    tables: Tables,
    other: Tables,
)
    ensures
        applied(
            applied(tables, handled(config, prefix, request, body)),
            handled(config, prefix, request, body),
        ) == applied(tables, handled(config, prefix, request, body)),
        handled(config, prefix, request, body) is Updated ==> applied(
            tables,
            handled(config, prefix, request, body),
        ) == applied(other, handled(config, prefix, request, body)),
{
}

/// A request to the served path that announces YAML but does not carry the
/// token is answered with 401, whatever its body, and the tables stay as
/// they are.
pub proof fn lemma_unauthorized_changes_nothing(
    config: Config,
    prefix: Seq<char>,
    request: Request,
    body: Seq<char>,
    tables: Tables,
)
    requires
        served(prefix, request),
        announces_yaml(request),
        !authorized(config.token@, request),
    ensures
        screened(config.token@, prefix, request) == Some(Decision::Unauthorized),
        handled(config, prefix, request, body) == Decision::Unauthorized,
        status_of(handled(config, prefix, request, body)) == Some(401u16),
        applied(tables, handled(config, prefix, request, body)) == tables,
{
}

/// A request to the served path that does not announce YAML is settled
/// before its body is looked at, and the tables stay as they are.
pub proof fn lemma_other_content_changes_nothing(
    config: Config,
    prefix: Seq<char>,
    request: Request,
    body: Seq<char>,
    tables: Tables,
)
    requires
        served(prefix, request),
        !announces_yaml(request),
    ensures
        screened(config.token@, prefix, request) == Some(Decision::Ignored),
        handled(config, prefix, request, body) == Decision::Ignored,
        applied(tables, handled(config, prefix, request, body)) == tables,
{
}

/// Only a reply with new tables changes anything, and it is given only to
/// a POST to the served path that announces YAML and carries the token.
pub proof fn lemma_tables_change_only_when_let_through(
    config: Config,
    prefix: Seq<char>,
    request: Request,
    body: Seq<char>,
    tables: Tables,
)
    ensures
        handled(config, prefix, request, body) is Updated ==> served(prefix, request)
            && announces_yaml(request) && authorized(config.token@, request) && document_of(
            body,
        ).is_some(),
        !(handled(config, prefix, request, body) is Updated) ==> applied(
            tables,
            handled(config, prefix, request, body),
        ) == tables,
{
}

} // verus!
