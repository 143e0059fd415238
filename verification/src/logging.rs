use vstd::prelude::*;

use crate::error::DecodeError;
use crate::raw::{
    Raw, res_view, lookup, scan_keys, spec_field_string, spec_field_u64, field_string, field_u64,
    check_keys, obj_get, lemma_scan_clean, lemma_lookup_found,
};

verus! {

/// The logging configuration file to fetch: name, checksum, size, source.
#[derive(Debug, Clone, PartialEq, Eq, Hash)]
pub struct LogFile {
    pub id: String,
    pub sha1: String,
    pub size: u64,
    pub url: String,
}

/// The mathematical shape of `LogFile`.
pub struct LogFileV {
    pub id: Seq<char>,
    pub sha1: Seq<char>,
    pub size: u64,
    pub url: Seq<char>,
}

impl DeepView for LogFile {
    type V = LogFileV;

    open spec fn deep_view(&self) -> LogFileV {
        LogFileV { id: self.id@, sha1: self.sha1@, size: self.size, url: self.url@ }
    }
}

/// The client-side logging directive: the argument to pass, the
/// configuration file, and the configuration's kind tag.
#[derive(Debug, Clone, PartialEq, Eq, Hash)]
pub struct ClientLogging {
    pub argument: String,
    pub file: LogFile,
    pub kind: String,
}

/// The mathematical shape of `ClientLogging`.
pub struct ClientLoggingV {
    pub argument: Seq<char>,
    pub file: LogFileV,
    pub kind: Seq<char>,
}

impl DeepView for ClientLogging {
    type V = ClientLoggingV;

    open spec fn deep_view(&self) -> ClientLoggingV {
        ClientLoggingV { argument: self.argument@, file: self.file.deep_view(), kind: self.kind@ }
    }
}

/// The logging descriptor: its client part.
#[derive(Debug, Clone, PartialEq, Eq, Hash)]
pub struct Logging {
    pub client: ClientLogging,
}

/// The mathematical shape of `Logging`.
pub struct LoggingV {
    pub client: ClientLoggingV,
}

impl DeepView for Logging {
    type V = LoggingV;

    open spec fn deep_view(&self) -> LoggingV {
        LoggingV { client: self.client.deep_view() }
    }
}

/// The keys a logging file object may carry.
pub open spec fn log_file_keys() -> Seq<Seq<char>> {
    seq!["id"@, "sha1"@, "size"@, "url"@]
}

/// The keys a client logging object may carry; the kind tag travels on the
/// wire under the name type.
pub open spec fn client_logging_keys() -> Seq<Seq<char>> {
    seq!["argument"@, "file"@, "type"@]
}

/// The keys a logging object may carry.
pub open spec fn logging_keys() -> Seq<Seq<char>> {
    seq!["client"@]
}

/// A logging file object: the four required fields, no other keys.
pub open spec fn spec_decode_log_file(r: Raw) -> Result<LogFileV, DecodeError> {
    match r {
        Raw::Object(es) => match scan_keys(Seq::<Seq<char>>::empty(), es@, log_file_keys()) {
            Some(e) => Err(e),
            None => match spec_field_string(es@, "id"@) {
                Err(e) => Err(e),
                Ok(id) => match spec_field_string(es@, "sha1"@) {
                    Err(e) => Err(e),
                    Ok(sha1) => match spec_field_u64(es@, "size"@) {
                        Err(e) => Err(e),
                        Ok(size) => match spec_field_string(es@, "url"@) {
                            Err(e) => Err(e),
                            Ok(url) => Ok(LogFileV { id, sha1, size, url }),
                        },
                    },
                },
            },
        },
        _ => Err(DecodeError::TypeMismatch),
    }
}

/// A client logging object: argument, file and kind, all required.
pub open spec fn spec_decode_client_logging(r: Raw) -> Result<ClientLoggingV, DecodeError> {
    match r {
        Raw::Object(es) => match scan_keys(Seq::<Seq<char>>::empty(), es@, client_logging_keys()) {
            Some(e) => Err(e),
            None => match spec_field_string(es@, "argument"@) {
                Err(e) => Err(e),
                Ok(argument) => match lookup(es@, "file"@) {
                    None => Err(DecodeError::MissingField),
                    Some(fraw) => match spec_decode_log_file(fraw) {
                        Err(e) => Err(e),
                        Ok(file) => match spec_field_string(es@, "type"@) {
                            Err(e) => Err(e),
                            Ok(kind) => Ok(ClientLoggingV { argument, file, kind }),
                        },
                    },
                },
            },
        },
        _ => Err(DecodeError::TypeMismatch),
    }
}

/// A logging object: its required client part, no other keys.
pub open spec fn spec_decode_logging(r: Raw) -> Result<LoggingV, DecodeError> {
    match r {
        Raw::Object(es) => match scan_keys(Seq::<Seq<char>>::empty(), es@, logging_keys()) {
            Some(e) => Err(e),
            None => match lookup(es@, "client"@) {
                None => Err(DecodeError::MissingField),
                Some(craw) => match spec_decode_client_logging(craw) {
                    Err(e) => Err(e),
                    Ok(client) => Ok(LoggingV { client }),
                },
            },
        },
        _ => Err(DecodeError::TypeMismatch),
    }
}

/// The allowed keys of a logging file object, for the scanner.
fn log_file_allowed() -> (v: Vec<&'static str>)
    ensures
        v.deep_view() == log_file_keys(),
{
    let mut v: Vec<&'static str> = Vec::new();
    v.push("id");
    v.push("sha1");
    v.push("size");
    v.push("url");
    proof {
        assert(v.deep_view() =~= log_file_keys());
    }
    v
}

/// The allowed keys of a client logging object, for the scanner.
fn client_logging_allowed() -> (v: Vec<&'static str>)
    ensures
        v.deep_view() == client_logging_keys(),
{
    let mut v: Vec<&'static str> = Vec::new();
    v.push("argument");
    v.push("file");
    v.push("type");
    proof {
        assert(v.deep_view() =~= client_logging_keys());
    }
    v
}

/// The allowed keys of a logging object, for the scanner.
fn logging_allowed() -> (v: Vec<&'static str>)
    ensures
        v.deep_view() == logging_keys(),
{
    let mut v: Vec<&'static str> = Vec::new();
    v.push("client");
    proof {
        assert(v.deep_view() =~= logging_keys());
    }
    v
}

/// Decodes a logging file object, as `spec_decode_log_file`.
pub fn decode_log_file(r: &Raw) -> (res: Result<LogFile, DecodeError>)
    ensures
        res_view(res) == spec_decode_log_file(*r),
{
    match r {
        Raw::Object(es) => {
            let allowed = log_file_allowed();
            if let Some(e) = check_keys(es, &allowed) {
                return Err(e);
            }
            let id = match field_string(es, "id") {
                Ok(v) => v,
                Err(e) => return Err(e),
            };
            let sha1 = match field_string(es, "sha1") {
                Ok(v) => v,
                Err(e) => return Err(e),
            };
            let size = match field_u64(es, "size") {
                Ok(v) => v,
                Err(e) => return Err(e),
            };
            let url = match field_string(es, "url") {
                Ok(v) => v,
                Err(e) => return Err(e),
            };
            Ok(LogFile { id, sha1, size, url })
        },
        _ => Err(DecodeError::TypeMismatch),
    }
}

/// Decodes a client logging object, as `spec_decode_client_logging`.
pub fn decode_client_logging(r: &Raw) -> (res: Result<ClientLogging, DecodeError>)
    ensures
        res_view(res) == spec_decode_client_logging(*r),
{
    match r {
        Raw::Object(es) => {
            let allowed = client_logging_allowed();
            if let Some(e) = check_keys(es, &allowed) {
                return Err(e);
            }
            let argument = match field_string(es, "argument") {
                Ok(v) => v,
                Err(e) => return Err(e),
            };
            let file = match obj_get(es, "file") {
                None => return Err(DecodeError::MissingField),
                Some(v) => match decode_log_file(v) {
                    Ok(f) => f,
                    Err(e) => return Err(e),
                },
            };
            let kind = match field_string(es, "type") {
                Ok(v) => v,
                Err(e) => return Err(e),
            };
            Ok(ClientLogging { argument, file, kind })
        },
        _ => Err(DecodeError::TypeMismatch),
    }
}

/// Decodes a logging object, as `spec_decode_logging`.
pub fn decode_logging(r: &Raw) -> (res: Result<Logging, DecodeError>)
    ensures
        res_view(res) == spec_decode_logging(*r),
{
    match r {
        Raw::Object(es) => {
            let allowed = logging_allowed();
            if let Some(e) = check_keys(es, &allowed) {
                return Err(e);
            }
            let client = match obj_get(es, "client") {
                None => return Err(DecodeError::MissingField),
                Some(v) => match decode_client_logging(v) {
                    Ok(c) => c,
                    Err(e) => return Err(e),
                },
            };
            Ok(Logging { client })
        },
        _ => Err(DecodeError::TypeMismatch),
    }
}

/// Encodes a logging file; decoding gives it back.
pub fn encode_log_file(f: &LogFile) -> (out: Raw)
    ensures
        spec_decode_log_file(out) == Ok::<LogFileV, DecodeError>(f.deep_view()),
{
    let mut es: Vec<(String, Raw)> = Vec::new();
    es.push(("id".to_owned(), Raw::Str(f.id.clone())));
    es.push(("sha1".to_owned(), Raw::Str(f.sha1.clone())));
    es.push(("size".to_owned(), Raw::Int(f.size)));
    es.push(("url".to_owned(), Raw::Str(f.url.clone())));
    proof {
        reveal_strlit("id");
        reveal_strlit("sha1");
        reveal_strlit("size");
        reveal_strlit("url");
        let esv = es@;
        assert(esv.len() == 4);
        assert(esv[0].0@ == "id"@);
        assert(esv[1].0@ == "sha1"@);
        assert(esv[2].0@ == "size"@);
        assert(esv[3].0@ == "url"@);
        assert("id"@.len() == 2 && "sha1"@.len() == 4 && "size"@.len() == 4 && "url"@.len() == 3);
        assert("sha1"@[1] == 'h' && "size"@[1] == 'i');
        assert("id"@ != "sha1"@ && "id"@ != "size"@ && "id"@ != "url"@);
        assert("sha1"@ != "size"@ && "sha1"@ != "url"@ && "size"@ != "url"@);
        assert forall|i: int| 0 <= i < esv.len() implies log_file_keys().contains(
            #[trigger] esv[i].0@,
        ) by {
            assert(log_file_keys()[i] == esv[i].0@);
        }
        assert forall|i: int, j: int| 0 <= i < j < esv.len() implies esv[i].0@ != esv[j].0@ by {
            assert(esv[0].0@ == "id"@ && esv[1].0@ == "sha1"@ && esv[2].0@ == "size"@ && esv[3].0@
                == "url"@);
        }
        lemma_scan_clean(Seq::<Seq<char>>::empty(), esv, log_file_keys());
        lemma_lookup_found(esv, "id"@, 0);
        lemma_lookup_found(esv, "sha1"@, 1);
        lemma_lookup_found(esv, "size"@, 2);
        lemma_lookup_found(esv, "url"@, 3);
    }
    Raw::Object(es)
}

/// Encodes a client logging directive; decoding gives it back.
pub fn encode_client_logging(c: &ClientLogging) -> (out: Raw)
    ensures
        spec_decode_client_logging(out) == Ok::<ClientLoggingV, DecodeError>(c.deep_view()),
{
    let file_raw = encode_log_file(&c.file);
    let mut es: Vec<(String, Raw)> = Vec::new();
    es.push(("argument".to_owned(), Raw::Str(c.argument.clone())));
    es.push(("file".to_owned(), file_raw));
    es.push(("type".to_owned(), Raw::Str(c.kind.clone())));
    proof {
        reveal_strlit("argument");
        reveal_strlit("file");
        reveal_strlit("type");
        let esv = es@;
        assert(esv.len() == 3);
        assert(esv[0].0@ == "argument"@);
        assert(esv[1].0@ == "file"@);
        assert(esv[2].0@ == "type"@);
        assert("argument"@.len() == 8 && "file"@.len() == 4 && "type"@.len() == 4);
        assert("file"@[0] == 'f' && "type"@[0] == 't');
        assert("argument"@ != "file"@ && "argument"@ != "type"@ && "file"@ != "type"@);
        assert forall|i: int| 0 <= i < esv.len() implies client_logging_keys().contains(
            #[trigger] esv[i].0@,
        ) by {
            assert(client_logging_keys()[i] == esv[i].0@);
        }
        assert forall|i: int, j: int| 0 <= i < j < esv.len() implies esv[i].0@ != esv[j].0@ by {
            assert(esv[0].0@ == "argument"@ && esv[1].0@ == "file"@ && esv[2].0@ == "type"@);
        }
        lemma_scan_clean(Seq::<Seq<char>>::empty(), esv, client_logging_keys());
        lemma_lookup_found(esv, "argument"@, 0);
        lemma_lookup_found(esv, "file"@, 1);
        lemma_lookup_found(esv, "type"@, 2);
    }
    Raw::Object(es)
}

/// Encodes a logging descriptor; decoding gives it back.
pub fn encode_logging(l: &Logging) -> (out: Raw)
    ensures
        spec_decode_logging(out) == Ok::<LoggingV, DecodeError>(l.deep_view()),
{
    let client_raw = encode_client_logging(&l.client);
    let mut es: Vec<(String, Raw)> = Vec::new();
    es.push(("client".to_owned(), client_raw));
    proof {
        reveal_strlit("client");
        let esv = es@;
        assert(esv.len() == 1);
        assert(esv[0].0@ == "client"@);
        assert forall|i: int| 0 <= i < esv.len() implies logging_keys().contains(
            #[trigger] esv[i].0@,
        ) by {
            assert(logging_keys()[i] == esv[i].0@);
        }
        lemma_scan_clean(Seq::<Seq<char>>::empty(), esv, logging_keys());
        lemma_lookup_found(esv, "client"@, 0);
    }
    Raw::Object(es)
}

} // verus!
