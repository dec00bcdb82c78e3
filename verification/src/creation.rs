//! Creation handshake: negotiation of the protocol headers and shaping of the
//! final outcome.
//!
//! [`CreationRequest::from_headers`] turns the raw transport headers of one
//! creation request into a validated intent or a typed rejection, enforcing
//! the handshake in a fixed order: protocol version, content-length presence,
//! a declared upload length that parses and fits under the server's ceiling,
//! and an optional metadata header read by the lenient reader
//! [`parse_tus_metadata`]. [`creation_handler`] then shapes the response for a
//! record the vault was asked to persist.

use vstd::prelude::*;
use vstd::string::StrSliceExecFns;
use vstd::string::StringExecFns;

use crate::metadata::Metadata;
use crate::metadata::vec_insert_pair;
use crate::metadata::pair_views;
use crate::metadata::keys_unique;
use crate::metadata::assoc_map;
use crate::strings::find_char;
use crate::strings::lemma_find_char;
use crate::strings::parse_u64;
use crate::strings::split_char;
use crate::strings::split_str;
use crate::strings::str_eq;
use crate::strings::str_views;
use crate::strings::trim_spec;
use crate::strings::trim_str;
use crate::strings::u64_str_spec;

verus! {

/// The transport status classes the handshake can produce.
#[derive(Clone, Copy, Debug, PartialEq, Eq, Structural)]
pub enum HttpStatus {
    /// The upload record was created.
    Created,
    /// A required header was missing or malformed.
    BadRequest,
    /// The declared upload length exceeds the server's ceiling.
    PayloadTooLarge,
    /// The vault failed to persist the record.
    InternalServerError,
}

impl HttpStatus {
    /// The numeric status code of the class.
    pub fn code(&self) -> (c: u16)
        ensures
            c == match self {
                HttpStatus::Created => 201u16,
                HttpStatus::BadRequest => 400u16,
                HttpStatus::PayloadTooLarge => 413u16,
                HttpStatus::InternalServerError => 500u16,
            },
    {
        match self {
            HttpStatus::Created => 201,
            HttpStatus::BadRequest => 400,
            HttpStatus::PayloadTooLarge => 413,
            HttpStatus::InternalServerError => 500,
        }
    }
}

/// A typed rejection of a creation request: a status class and a
/// human-readable reason.
#[derive(Debug)]
pub struct Rejection {
    /// The status class; never `Created`.
    pub status: HttpStatus,
    /// The human-readable reason.
    pub message: &'static str,
}

/// The validated intent of one creation request.
#[derive(Debug)]
pub struct CreationRequest {
    /// The client-declared total size of the eventual upload.
    pub upload_length: u64,
    /// The metadata header, read leniently, when one was present and
    /// non-empty.
    pub metadata: Option<Metadata>,
}

/// The view of an optional header value.
pub open spec fn opt_str_view(o: Option<&str>) -> Option<Seq<char>> {
    match o {
        Some(s) => Some(s@),
        None => None,
    }
}

/// The view of an optional metadata mapping.
pub open spec fn opt_metadata_view(m: Option<Metadata>) -> Option<Map<Seq<char>, Seq<char>>> {
    match m {
        Some(md) => Some(md@),
        None => None,
    }
}

/// What the lenient metadata reader yields on the comma segments: each
/// segment is trimmed; a segment without a space is dropped; otherwise the
/// text before the first space is the key and the trimmed text after it is
/// the value, later occurrences of a key overwriting earlier ones.
pub open spec fn lenient_segments(segs: Seq<Seq<char>>, acc: Map<Seq<char>, Seq<char>>) -> Map<
    Seq<char>,
    Seq<char>,
>
    decreases segs.len(),
{
    if segs.len() == 0 {
        acc
    } else {
        let t = trim_spec(segs.first());
        let i = find_char(t, ' ');
        let acc2 = if i == t.len() {
            acc
        } else {
            acc.insert(trim_spec(t.subrange(0, i)), trim_spec(t.subrange(i, t.len() as int)))
        };
        lenient_segments(segs.drop_first(), acc2)
    }
}

/// What the lenient metadata reader yields on a whole header value.
pub open spec fn lenient_parse_spec(s: Seq<char>) -> Map<Seq<char>, Seq<char>> {
    lenient_segments(split_char(s, ','), Map::empty())
}

/// Leniently reads a metadata header, as the specification
/// [`lenient_parse_spec`] describes: it never fails, and a pair without a
/// space between key and value is silently dropped.
pub fn parse_tus_metadata(metadata_str: &str) -> (m: Metadata)
    ensures
        m@ == lenient_parse_spec(metadata_str@),
{
    let segments = split_str(metadata_str, ',');
    let ghost segs = split_char(metadata_str@, ',');
    let mut pairs: Vec<(String, String)> = Vec::new();
    proof {
        assert(pair_views(pairs@) =~= Seq::<(Seq<char>, Seq<char>)>::empty());
        assert(assoc_map(pair_views(pairs@)) =~= Map::<Seq<char>, Seq<char>>::empty());
        assert(segs.skip(0) =~= segs);
    }
    let n = segments.len();
    let mut idx: usize = 0;
    while idx < n
        invariant
            idx <= n,
            n == segments@.len(),
            str_views(segments@) == segs,
            segs == split_char(metadata_str@, ','),
            keys_unique(pair_views(pairs@)),
            lenient_segments(segs, Map::empty()) == lenient_segments(
                segs.skip(idx as int),
                assoc_map(pair_views(pairs@)),
            ),
        decreases n - idx,
    {
        proof {
            assert(segs.skip(idx as int).first() == segs[idx as int]);
            assert(segs.skip(idx as int).drop_first() =~= segs.skip(idx as int + 1));
            assert(segments@[idx as int]@ == segs[idx as int]);
        }
        let t = trim_str(segments[idx].as_str());
        let tlen = t.unicode_len();
        let mut j: usize = 0;
        while j < tlen && t.get_char(j) != ' '
            invariant
                j <= tlen,
                tlen == t@.len(),
                forall|k: int| 0 <= k < j ==> t@[k] != ' ',
            decreases tlen - j,
        {
            j = j + 1;
        }
        proof {
            lemma_find_char(t@, ' ');
            assert(find_char(t@, ' ') == j);
        }
        if j < tlen {
            let key = String::from_str(trim_str(t.substring_char(0, j)));
            let value = String::from_str(trim_str(t.substring_char(j, tlen)));
            proof {
                assert(t@.subrange(0, j as int) == t@.subrange(0, find_char(t@, ' ')));
                assert(key@ == trim_spec(t@.subrange(0, find_char(t@, ' '))));
                assert(value@ == trim_spec(t@.subrange(find_char(t@, ' '), t@.len() as int)));
            }
            vec_insert_pair(&mut pairs, key, value);
        }
        idx = idx + 1;
    }
    proof {
        assert(segs.skip(n as int) =~= Seq::<Seq<char>>::empty());
    }
    Metadata::from_pairs(pairs)
}

/// What negotiation yields on the raw header values: the declared length and
/// the leniently read metadata, or the status class and reason of the first
/// failing check. The checks run in a fixed order: the protocol version must
/// be present and exactly `1.0.0`, a content-length header must be present
/// (its value is not otherwise consulted), the declared upload length must be
/// present and parse as a non-negative 64-bit integer, and it must not exceed
/// the ceiling `max_size`; a present, non-empty metadata header is then read
/// leniently.
pub open spec fn negotiate_spec(
    version: Option<Seq<char>>,
    content_length: Option<Seq<char>>,
    upload_length: Option<Seq<char>>,
    metadata: Option<Seq<char>>,
    max_size: u64,
) -> Result<(u64, Option<Map<Seq<char>, Seq<char>>>), (HttpStatus, Seq<char>)> {
    if !(version matches Some(v) && v == "1.0.0"@) {
        Err((HttpStatus::BadRequest, "Missing or invalid Tus-Resumable header"@))
    } else if content_length is None {
        Err((HttpStatus::BadRequest, "Missing Content-Length header"@))
    } else {
        match upload_length {
            None => Err((HttpStatus::BadRequest, "Missing Upload-Length header"@)),
            Some(u) => match u64_str_spec(u) {
                None => Err((HttpStatus::BadRequest, "Invalid Upload-Length header"@)),
                Some(n) => if n > max_size {
                    Err((HttpStatus::PayloadTooLarge, "Upload-Length exceeds the Tus-Max-Size"@))
                } else {
                    Ok(
                        (
                            n,
                            match metadata {
                                None => None,
                                Some(m) => if m.len() == 0 {
                                    None
                                } else {
                                    Some(lenient_parse_spec(m))
                                },
                            },
                        ),
                    )
                },
            },
        }
    }
}

/// A request whose protocol version header is missing, or holds anything but
/// `1.0.0`, is rejected as a bad request, whatever the other headers hold.
pub proof fn lemma_bad_version_rejected(
    version: Option<Seq<char>>,
    content_length: Option<Seq<char>>,
    upload_length: Option<Seq<char>>,
    metadata: Option<Seq<char>>,
    max_size: u64,
)
    requires
        !(version matches Some(v) && v == "1.0.0"@),
    ensures
        negotiate_spec(version, content_length, upload_length, metadata, max_size) == Err::<
            (u64, Option<Map<Seq<char>, Seq<char>>>),
            (HttpStatus, Seq<char>),
        >((HttpStatus::BadRequest, "Missing or invalid Tus-Resumable header"@)),
{
}

/// A declared upload length over the ceiling is rejected as payload-too-large,
/// distinct from the bad request that a missing or unparsable length earns.
pub proof fn lemma_oversized_length_rejected(
    version: Option<Seq<char>>,
    content_length: Option<Seq<char>>,
    upload_length: Option<Seq<char>>,
    metadata: Option<Seq<char>>,
    max_size: u64,
)
    requires
        version matches Some(v) && v == "1.0.0"@,
        content_length is Some,
    ensures
        (upload_length matches Some(u) && u64_str_spec(u) matches Some(n) && n > max_size)
            ==> negotiate_spec(version, content_length, upload_length, metadata, max_size) == Err::<
            (u64, Option<Map<Seq<char>, Seq<char>>>),
            (HttpStatus, Seq<char>),
        >((HttpStatus::PayloadTooLarge, "Upload-Length exceeds the Tus-Max-Size"@)),
        (upload_length is None || (upload_length matches Some(u) && u64_str_spec(u) is None)) ==> (
        negotiate_spec(version, content_length, upload_length, metadata, max_size) matches Err(e)
            && e.0 == HttpStatus::BadRequest),
{
}

impl CreationRequest {
    /// Negotiates one creation request from its raw header values against the
    /// configured ceiling `max_size`, as the specification [`negotiate_spec`]
    /// describes: the first failing check decides the rejection.
    pub fn from_headers(
        tus_resumable: Option<&str>,
        content_length: Option<&str>,
        upload_length: Option<&str>,
        upload_metadata: Option<&str>,
        max_size: u64,
    ) -> (r: Result<CreationRequest, Rejection>)
        ensures
            ({
                let sp = negotiate_spec(
                    opt_str_view(tus_resumable),
                    opt_str_view(content_length),
                    opt_str_view(upload_length),
                    opt_str_view(upload_metadata),
                    max_size,
                );
                match r {
                    Ok(req) => sp == Ok::<(u64, Option<Map<Seq<char>, Seq<char>>>), (
                        HttpStatus,
                        Seq<char>,
                    )>((req.upload_length, opt_metadata_view(req.metadata))),
                    Err(rej) => sp == Err::<(u64, Option<Map<Seq<char>, Seq<char>>>), (
                        HttpStatus,
                        Seq<char>,
                    )>((rej.status, rej.message@)),
                }
            }),
    {
        let version_ok = match tus_resumable {
            Some(v) => str_eq(v, "1.0.0"),
            None => false,
        };
        if !version_ok {
            return Err(
                Rejection {
                    status: HttpStatus::BadRequest,
                    message: "Missing or invalid Tus-Resumable header",
                },
            );
        }
        if content_length.is_none() {
            return Err(
                Rejection { status: HttpStatus::BadRequest, message: "Missing Content-Length header" },
            );
        }
        let upload_length = match upload_length {
            Some(value) => match parse_u64(value) {
                Some(n) => n,
                None => {
                    return Err(
                        Rejection {
                            status: HttpStatus::BadRequest,
                            message: "Invalid Upload-Length header",
                        },
                    );
                },
            },
            None => {
                return Err(
                    Rejection {
                        status: HttpStatus::BadRequest,
                        message: "Missing Upload-Length header",
                    },
                );
            },
        };
        if upload_length > max_size {
            return Err(
                Rejection {
                    status: HttpStatus::PayloadTooLarge,
                    message: "Upload-Length exceeds the Tus-Max-Size",
                },
            );
        }
        let metadata = match upload_metadata {
            None => None,
            Some(m) => {
                if m.is_empty() {
                    None
                } else {
                    Some(parse_tus_metadata(m))
                }
            },
        };
        Ok(CreationRequest { upload_length, metadata })
    }
}

/// A server-side upload record, identified by a server-generated unique id
/// and holding the declared length and the optional metadata; its durable
/// persistence is the vault collaborator's concern.
pub struct UploadRecord {
    /// The server-generated unique identifier.
    pub id: String,
    /// The client-declared total size of the eventual upload.
    pub length: u64,
    /// The metadata attached at creation, if any.
    pub metadata: Option<Metadata>,
}

/// Builds the upload record for a validated intent and a freshly generated
/// unique identifier.
pub fn build_upload_record(req: CreationRequest, id: String) -> (f: UploadRecord)
    ensures
        f.id == id,
        f.length == req.upload_length,
        f.metadata == req.metadata,
{
    UploadRecord { id, length: req.upload_length, metadata: req.metadata }
}

/// The outcome of one creation request, to be rendered by the transport
/// boundary.
pub enum CreationResponder {
    /// The record was persisted; carries the resource location.
    Success(String),
    /// The request failed; carries the status class and the reason.
    Failure(HttpStatus, &'static str),
}

/// The pieces of the transport response a [`CreationResponder`] stands for.
pub struct ResponseParts {
    /// The status class of the response.
    pub status: HttpStatus,
    /// The `Location` header, on success.
    pub location: Option<String>,
    /// The echoed protocol version header, on success.
    pub tus_version: Option<&'static str>,
    /// The short human-readable reason, on failure.
    pub body: Option<&'static str>,
}

/// Shapes the outcome of one creation request: any vault failure collapses to
/// a generic internal error that exposes no detail of the cause, and success
/// carries the record's resource location `/files/{id}`.
pub fn creation_handler<E>(record: &UploadRecord, vault_result: Result<(), E>) -> (r:
    CreationResponder)
    ensures
        vault_result is Err ==> (r matches CreationResponder::Failure(status, message)
            && status == HttpStatus::InternalServerError && message@ == "some error"@),
        vault_result is Ok ==> (r matches CreationResponder::Success(uri) && uri@ == "/files/"@
            + record.id@),
{
    if vault_result.is_err() {
        return CreationResponder::Failure(HttpStatus::InternalServerError, "some error");
    }
    let mut uri = String::from_str("/files/");
    uri.append(record.id.as_str());
    CreationResponder::Success(uri)
}

impl CreationResponder {
    /// The transport pieces this outcome renders to: a failure carries its
    /// status and reason alone; a success is a `Created` status with the
    /// protocol version echoed and the record's location, and no body.
    pub fn into_parts(self) -> (p: ResponseParts)
        ensures
            match self {
                CreationResponder::Failure(status, message) => p.status == status && p.location
                    is None && p.tus_version is None && p.body == Some(message),
                CreationResponder::Success(uri) => p.status == HttpStatus::Created && p.location
                    == Some(uri) && (p.tus_version matches Some(v) && v@ == "1.0.0"@) && p.body
                    is None,
            },
    {
        match self {
            CreationResponder::Failure(status, message) => ResponseParts {
                status,
                location: None,
                tus_version: None,
                body: Some(message),
            },
            CreationResponder::Success(uri) => ResponseParts {
                status: HttpStatus::Created,
                location: Some(uri),
                tus_version: Some("1.0.0"),
                body: None,
            },
        }
    }
}

} // verus!


