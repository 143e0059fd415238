use vstd::prelude::*;

use crate::error::DecodeError;
use crate::raw::{
    Raw, res_view, lookup, scan_keys, scan_dups, spec_field_string, spec_field_opt_string,
    spec_field_u64, spec_string_items, field_string, field_opt_string, field_u64, check_keys,
    check_dups, obj_get, decode_string_items, string_eq_str,
};
use crate::rule::{Rule, RuleV, spec_decode_rules, decode_rules, spec_evaluate, evaluate, Context};

verus! {

/// A named artifact to fetch: relative path, checksum, size and source.
#[derive(Debug, Clone, PartialEq, Eq, Hash)]
pub struct Artifact {
    pub path: String,
    pub sha1: String,
    pub size: u64,
    pub url: String,
}

/// The mathematical shape of `Artifact`.
pub struct ArtifactV {
    pub path: Seq<char>,
    pub sha1: Seq<char>,
    pub size: u64,
    pub url: Seq<char>,
}

impl DeepView for Artifact {
    type V = ArtifactV;

    open spec fn deep_view(&self) -> ArtifactV {
        ArtifactV { path: self.path@, sha1: self.sha1@, size: self.size, url: self.url@ }
    }
}

/// A dependency's downloadable artifacts: an optional primary artifact and
/// an optional mapping from classifier name to the artifact it names.
#[derive(Debug, Clone, PartialEq, Eq, Hash)]
pub struct Downloads {
    pub artifact: Option<Artifact>,
    pub classifiers: Option<Vec<(String, Artifact)>>,
}

/// The mathematical shape of `Downloads`.
pub struct DownloadsV {
    pub artifact: Option<ArtifactV>,
    pub classifiers: Option<Seq<(Seq<char>, ArtifactV)>>,
}

impl DeepView for Downloads {
    type V = DownloadsV;

    open spec fn deep_view(&self) -> DownloadsV {
        DownloadsV {
            artifact: self.artifact.deep_view(),
            classifiers: self.classifiers.deep_view(),
        }
    }
}

/// The per-platform classifier suffixes of a dependency's native bundles.
#[derive(Debug, Clone, PartialEq, Eq, Hash)]
pub struct Natives {
    pub linux: Option<String>,
    pub osx: Option<String>,
    pub windows: Option<String>,
}

/// The mathematical shape of `Natives`.
pub struct NativesV {
    pub linux: Option<Seq<char>>,
    pub osx: Option<Seq<char>>,
    pub windows: Option<Seq<char>>,
}

impl DeepView for Natives {
    type V = NativesV;

    open spec fn deep_view(&self) -> NativesV {
        NativesV {
            linux: self.linux.deep_view(),
            osx: self.osx.deep_view(),
            windows: self.windows.deep_view(),
        }
    }
}

/// An extraction directive: a mapping from a directive name to an ordered
/// list of path patterns, carried through opaquely.
pub type Extract = Vec<(String, Vec<String>)>;

/// A dependency descriptor: coordinate name, optional downloads, optional
/// extraction directive, optional native classifiers, and optional
/// conditions gating whether it applies at all.
#[derive(Debug, Clone, PartialEq, Eq, Hash)]
pub struct Library {
    pub downloads: Option<Downloads>,
    pub name: String,
    pub extract: Option<Extract>,
    pub natives: Option<Natives>,
    pub rules: Option<Vec<Rule>>,
}

/// The mathematical shape of `Library`.
pub struct LibraryV {
    pub downloads: Option<DownloadsV>,
    pub name: Seq<char>,
    pub extract: Option<Seq<(Seq<char>, Seq<Seq<char>>)>>,
    pub natives: Option<NativesV>,
    pub rules: Option<Seq<RuleV>>,
}

impl DeepView for Library {
    type V = LibraryV;

    open spec fn deep_view(&self) -> LibraryV {
        LibraryV {
            downloads: self.downloads.deep_view(),
            name: self.name@,
            extract: self.extract.deep_view(),
            natives: self.natives.deep_view(),
            rules: self.rules.deep_view(),
        }
    }
}

/// The keys an artifact object may carry.
pub open spec fn artifact_keys() -> Seq<Seq<char>> {
    seq!["path"@, "sha1"@, "size"@, "url"@]
}

/// The keys a dependency's downloads object may carry.
pub open spec fn lib_downloads_keys() -> Seq<Seq<char>> {
    seq!["artifact"@, "classifiers"@]
}

/// The keys a natives object may carry.
pub open spec fn natives_keys() -> Seq<Seq<char>> {
    seq!["linux"@, "osx"@, "windows"@]
}

/// The keys a dependency object may carry.
pub open spec fn library_keys() -> Seq<Seq<char>> {
    seq!["downloads"@, "name"@, "extract"@, "natives"@, "rules"@]
}

/// An artifact object: the four required fields, no other keys.
pub open spec fn spec_decode_artifact(r: Raw) -> Result<ArtifactV, DecodeError> {
    match r {
        Raw::Object(es) => match scan_keys(Seq::<Seq<char>>::empty(), es@, artifact_keys()) {
            Some(e) => Err(e),
            None => match spec_field_string(es@, "path"@) {
                Err(e) => Err(e),
                Ok(path) => match spec_field_string(es@, "sha1"@) {
                    Err(e) => Err(e),
                    Ok(sha1) => match spec_field_u64(es@, "size"@) {
                        Err(e) => Err(e),
                        Ok(size) => match spec_field_string(es@, "url"@) {
                            Err(e) => Err(e),
                            Ok(url) => Ok(ArtifactV { path, sha1, size, url }),
                        },
                    },
                },
            },
        },
        _ => Err(DecodeError::TypeMismatch),
    }
}

/// Classifier entries in order: every value an artifact object.
pub open spec fn spec_classifier_entries(es: Seq<(String, Raw)>) -> Result<
    Seq<(Seq<char>, ArtifactV)>,
    DecodeError,
>
    decreases es.len(),
{
    if es.len() == 0 {
        Ok(Seq::<(Seq<char>, ArtifactV)>::empty())
    } else {
        match spec_classifier_entries(es.drop_last()) {
            Ok(pre) => match spec_decode_artifact(es.last().1) {
                Ok(a) => Ok(pre.push((es.last().0@, a))),
                Err(e) => Err(e),
            },
            Err(e) => Err(e),
        }
    }
}

/// A classifier mapping: free keys, unrepeated, artifact values.
pub open spec fn spec_decode_classifiers(r: Raw) -> Result<
    Seq<(Seq<char>, ArtifactV)>,
    DecodeError,
> {
    match r {
        Raw::Object(es) => match scan_dups(Seq::<Seq<char>>::empty(), es@) {
            Some(e) => Err(e),
            None => spec_classifier_entries(es@),
        },
        _ => Err(DecodeError::TypeMismatch),
    }
}

/// Extraction entries in order: every value a list of strings.
pub open spec fn spec_extract_entries(es: Seq<(String, Raw)>) -> Result<
    Seq<(Seq<char>, Seq<Seq<char>>)>,
    DecodeError,
>
    decreases es.len(),
{
    if es.len() == 0 {
        Ok(Seq::<(Seq<char>, Seq<Seq<char>>)>::empty())
    } else {
        match spec_extract_entries(es.drop_last()) {
            Ok(pre) => match es.last().1 {
                Raw::List(items) => match spec_string_items(items@) {
                    Ok(pats) => Ok(pre.push((es.last().0@, pats))),
                    Err(e) => Err(e),
                },
                _ => Err(DecodeError::TypeMismatch),
            },
            Err(e) => Err(e),
        }
    }
}

/// An extraction directive: free keys, unrepeated, pattern-list values.
pub open spec fn spec_decode_extract(r: Raw) -> Result<
    Seq<(Seq<char>, Seq<Seq<char>>)>,
    DecodeError,
> {
    match r {
        Raw::Object(es) => match scan_dups(Seq::<Seq<char>>::empty(), es@) {
            Some(e) => Err(e),
            None => spec_extract_entries(es@),
        },
        _ => Err(DecodeError::TypeMismatch),
    }
}

/// A natives object: three optional per-platform suffixes, no other keys.
pub open spec fn spec_decode_natives(r: Raw) -> Result<NativesV, DecodeError> {
    match r {
        Raw::Object(es) => match scan_keys(Seq::<Seq<char>>::empty(), es@, natives_keys()) {
            Some(e) => Err(e),
            None => match spec_field_opt_string(es@, "linux"@) {
                Err(e) => Err(e),
                Ok(linux) => match spec_field_opt_string(es@, "osx"@) {
                    Err(e) => Err(e),
                    Ok(osx) => match spec_field_opt_string(es@, "windows"@) {
                        Err(e) => Err(e),
                        Ok(windows) => Ok(NativesV { linux, osx, windows }),
                    },
                },
            },
        },
        _ => Err(DecodeError::TypeMismatch),
    }
}

/// The optional artifact of a downloads object.
pub open spec fn spec_opt_artifact(es: Seq<(String, Raw)>) -> Result<
    Option<ArtifactV>,
    DecodeError,
> {
    match lookup(es, "artifact"@) {
        None => Ok(None),
        Some(Raw::Null) => Ok(None),
        Some(v) => match spec_decode_artifact(v) {
            Ok(a) => Ok(Some(a)),
            Err(e) => Err(e),
        },
    }
}

/// The optional classifier mapping of a downloads object.
pub open spec fn spec_opt_classifiers(es: Seq<(String, Raw)>) -> Result<
    Option<Seq<(Seq<char>, ArtifactV)>>,
    DecodeError,
> {
    match lookup(es, "classifiers"@) {
        None => Ok(None),
        Some(Raw::Null) => Ok(None),
        Some(v) => match spec_decode_classifiers(v) {
            Ok(cs) => Ok(Some(cs)),
            Err(e) => Err(e),
        },
    }
}

/// A dependency's downloads object: both parts optional, no other keys.
pub open spec fn spec_decode_lib_downloads(r: Raw) -> Result<DownloadsV, DecodeError> {
    match r {
        Raw::Object(es) => match scan_keys(Seq::<Seq<char>>::empty(), es@, lib_downloads_keys()) {
            Some(e) => Err(e),
            None => match spec_opt_artifact(es@) {
                Err(e) => Err(e),
                Ok(artifact) => match spec_opt_classifiers(es@) {
                    Err(e) => Err(e),
                    Ok(classifiers) => Ok(DownloadsV { artifact, classifiers }),
                },
            },
        },
        _ => Err(DecodeError::TypeMismatch),
    }
}

/// The optional downloads of a dependency object.
pub open spec fn spec_opt_lib_downloads(es: Seq<(String, Raw)>) -> Result<
    Option<DownloadsV>,
    DecodeError,
> {
    match lookup(es, "downloads"@) {
        None => Ok(None),
        Some(Raw::Null) => Ok(None),
        Some(v) => match spec_decode_lib_downloads(v) {
            Ok(d) => Ok(Some(d)),
            Err(e) => Err(e),
        },
    }
}

/// The optional extraction directive of a dependency object.
pub open spec fn spec_opt_extract(es: Seq<(String, Raw)>) -> Result<
    Option<Seq<(Seq<char>, Seq<Seq<char>>)>>,
    DecodeError,
> {
    match lookup(es, "extract"@) {
        None => Ok(None),
        Some(Raw::Null) => Ok(None),
        Some(v) => match spec_decode_extract(v) {
            Ok(x) => Ok(Some(x)),
            Err(e) => Err(e),
        },
    }
}

/// The optional natives of a dependency object.
pub open spec fn spec_opt_natives(es: Seq<(String, Raw)>) -> Result<
    Option<NativesV>,
    DecodeError,
> {
    match lookup(es, "natives"@) {
        None => Ok(None),
        Some(Raw::Null) => Ok(None),
        Some(v) => match spec_decode_natives(v) {
            Ok(n) => Ok(Some(n)),
            Err(e) => Err(e),
        },
    }
}

/// The optional condition list of a dependency object.
pub open spec fn spec_opt_rules(es: Seq<(String, Raw)>) -> Result<
    Option<Seq<RuleV>>,
    DecodeError,
> {
    match lookup(es, "rules"@) {
        None => Ok(None),
        Some(Raw::Null) => Ok(None),
        Some(Raw::List(items)) => match spec_decode_rules(items@) {
            Ok(rs) => Ok(Some(rs)),
            Err(e) => Err(e),
        },
        Some(_) => Err(DecodeError::TypeMismatch),
    }
}

/// A dependency object: a required name, the rest optional, no other keys.
pub open spec fn spec_decode_library(r: Raw) -> Result<LibraryV, DecodeError> {
    match r {
        Raw::Object(es) => match scan_keys(Seq::<Seq<char>>::empty(), es@, library_keys()) {
            Some(e) => Err(e),
            None => match spec_opt_lib_downloads(es@) {
                Err(e) => Err(e),
                Ok(downloads) => match spec_field_string(es@, "name"@) {
                    Err(e) => Err(e),
                    Ok(name) => match spec_opt_extract(es@) {
                        Err(e) => Err(e),
                        Ok(extract) => match spec_opt_natives(es@) {
                            Err(e) => Err(e),
                            Ok(natives) => match spec_opt_rules(es@) {
                                Err(e) => Err(e),
                                Ok(rules) => Ok(
                                    LibraryV { downloads, name, extract, natives, rules },
                                ),
                            },
                        },
                    },
                },
            },
        },
        _ => Err(DecodeError::TypeMismatch),
    }
}

/// An ordered dependency list, each element a dependency object.
pub open spec fn spec_decode_libraries(items: Seq<Raw>) -> Result<Seq<LibraryV>, DecodeError>
    decreases items.len(),
{
    if items.len() == 0 {
        Ok(Seq::<LibraryV>::empty())
    } else {
        match spec_decode_libraries(items.drop_last()) {
            Ok(pre) => match spec_decode_library(items.last()) {
                Ok(l) => Ok(pre.push(l)),
                Err(e) => Err(e),
            },
            Err(e) => Err(e),
        }
    }
}

/// The allowed keys of an artifact object, for the scanner.
fn artifact_allowed() -> (v: Vec<&'static str>)
    ensures
        v.deep_view() == artifact_keys(),
{
    let mut v: Vec<&'static str> = Vec::new();
    v.push("path");
    v.push("sha1");
    v.push("size");
    v.push("url");
    proof {
        assert(v.deep_view() =~= artifact_keys());
    }
    v
}

/// The allowed keys of a downloads object, for the scanner.
fn lib_downloads_allowed() -> (v: Vec<&'static str>)
    ensures
        v.deep_view() == lib_downloads_keys(),
{
    let mut v: Vec<&'static str> = Vec::new();
    v.push("artifact");
    v.push("classifiers");
    proof {
        assert(v.deep_view() =~= lib_downloads_keys());
    }
    v
}

/// The allowed keys of a natives object, for the scanner.
fn natives_allowed() -> (v: Vec<&'static str>)
    ensures
        v.deep_view() == natives_keys(),
{
    let mut v: Vec<&'static str> = Vec::new();
    v.push("linux");
    v.push("osx");
    v.push("windows");
    proof {
        assert(v.deep_view() =~= natives_keys());
    }
    v
}

/// The allowed keys of a dependency object, for the scanner.
fn library_allowed() -> (v: Vec<&'static str>)
    ensures
        v.deep_view() == library_keys(),
{
    let mut v: Vec<&'static str> = Vec::new();
    v.push("downloads");
    v.push("name");
    v.push("extract");
    v.push("natives");
    v.push("rules");
    proof {
        assert(v.deep_view() =~= library_keys());
    }
    v
}

/// Decodes an artifact object, as `spec_decode_artifact`.
pub fn decode_artifact(r: &Raw) -> (res: Result<Artifact, DecodeError>)
    ensures
        res_view(res) == spec_decode_artifact(*r),
{
    match r {
        Raw::Object(es) => {
            let allowed = artifact_allowed();
            if let Some(e) = check_keys(es, &allowed) {
                return Err(e);
            }
            let path = match field_string(es, "path") {
                Ok(v) => v,
                Err(e) => return Err(e),
            };
            let sha1 = match field_string(es, "sha1") {
                Ok(v) => v,
                Err(e) => return Err(e),
            };
            let size = match field_u64(es, "size") {
                Ok(v) => v,
                Err(e) => return Err(e),
            };
            let url = match field_string(es, "url") {
                Ok(v) => v,
                Err(e) => return Err(e),
            };
            Ok(Artifact { path, sha1, size, url })
        },
        _ => Err(DecodeError::TypeMismatch),
    }
}

/// A failed prefix fails the whole classifier-entry walk, with its error.
proof fn lemma_classifier_entries_err(es: Seq<(String, Raw)>, k: int, e: DecodeError)
    requires
        0 <= k <= es.len(),
        spec_classifier_entries(es.take(k)) == Err::<Seq<(Seq<char>, ArtifactV)>, DecodeError>(e),
    ensures
        spec_classifier_entries(es) == Err::<Seq<(Seq<char>, ArtifactV)>, DecodeError>(e),
    decreases es.len() - k,
{
    if k == es.len() {
        assert(es.take(k) =~= es);
    } else {
        assert(es.take(k + 1).drop_last() =~= es.take(k));
        assert(es.take(k + 1).last() == es[k]);
        lemma_classifier_entries_err(es, k + 1, e);
    }
}

/// Decodes a classifier mapping, as `spec_decode_classifiers`.
#[verifier::loop_isolation(false)]
pub fn decode_classifiers(r: &Raw) -> (res: Result<Vec<(String, Artifact)>, DecodeError>)
    ensures
        res_view(res) == spec_decode_classifiers(*r),
{
    match r {
        Raw::Object(es) => {
            if let Some(e) = check_dups(es) {
                return Err(e);
            }
            let ghost esv = es@;
            let mut out: Vec<(String, Artifact)> = Vec::new();
            proof {
                assert(esv.take(0) =~= Seq::<(String, Raw)>::empty());
                assert(out.deep_view() =~= Seq::<(Seq<char>, ArtifactV)>::empty());
            }
            let mut i: usize = 0;
            while i < es.len()
                invariant
                    0 <= i <= esv.len(),
                    spec_classifier_entries(esv.take(i as int)) == Ok::<_, DecodeError>(
                        out.deep_view(),
                    ),
                decreases esv.len() - i,
            {
                proof {
                    assert(esv.take(i as int + 1).drop_last() =~= esv.take(i as int));
                    assert(esv.take(i as int + 1).last() == esv[i as int]);
                }
                match decode_artifact(&es[i].1) {
                    Ok(a) => {
                        let ghost av = a.deep_view();
                        let ghost old_dv = out.deep_view();
                        out.push((es[i].0.clone(), a));
                        proof {
                            assert(out.deep_view() =~= old_dv.push((esv[i as int].0@, av)));
                        }
                    },
                    Err(e) => {
                        proof {
                            lemma_classifier_entries_err(esv, i as int + 1, e);
                        }
                        return Err(e);
                    },
                }
                i += 1;
            }
            proof {
                assert(esv.take(i as int) =~= esv);
            }
            Ok(out)
        },
        _ => Err(DecodeError::TypeMismatch),
    }
}

/// A failed prefix fails the whole extraction-entry walk, with its error.
proof fn lemma_extract_entries_err(es: Seq<(String, Raw)>, k: int, e: DecodeError)
    requires
        0 <= k <= es.len(),
        spec_extract_entries(es.take(k)) == Err::<Seq<(Seq<char>, Seq<Seq<char>>)>, DecodeError>(e),
    ensures
        spec_extract_entries(es) == Err::<Seq<(Seq<char>, Seq<Seq<char>>)>, DecodeError>(e),
    decreases es.len() - k,
{
    if k == es.len() {
        assert(es.take(k) =~= es);
    } else {
        assert(es.take(k + 1).drop_last() =~= es.take(k));
        assert(es.take(k + 1).last() == es[k]);
        lemma_extract_entries_err(es, k + 1, e);
    }
}

/// Decodes an extraction directive, as `spec_decode_extract`.
#[verifier::loop_isolation(false)]
pub fn decode_extract(r: &Raw) -> (res: Result<Extract, DecodeError>)
    ensures
        res_view(res) == spec_decode_extract(*r),
{
    match r {
        Raw::Object(es) => {
            if let Some(e) = check_dups(es) {
                return Err(e);
            }
            let ghost esv = es@;
            let mut out: Extract = Vec::new();
            proof {
                assert(esv.take(0) =~= Seq::<(String, Raw)>::empty());
                assert(out.deep_view() =~= Seq::<(Seq<char>, Seq<Seq<char>>)>::empty());
            }
            let mut i: usize = 0;
            while i < es.len()
                invariant
                    0 <= i <= esv.len(),
                    spec_extract_entries(esv.take(i as int)) == Ok::<_, DecodeError>(
                        out.deep_view(),
                    ),
                decreases esv.len() - i,
            {
                proof {
                    assert(esv.take(i as int + 1).drop_last() =~= esv.take(i as int));
                    assert(esv.take(i as int + 1).last() == esv[i as int]);
                }
                match &es[i].1 {
                    Raw::List(items) => match decode_string_items(items) {
                        Ok(pats) => {
                            let ghost pv = pats.deep_view();
                            let ghost old_dv = out.deep_view();
                            out.push((es[i].0.clone(), pats));
                            proof {
                                assert(out.deep_view() =~= old_dv.push((esv[i as int].0@, pv)));
                            }
                        },
                        Err(e) => {
                            proof {
                                lemma_extract_entries_err(esv, i as int + 1, e);
                            }
                            return Err(e);
                        },
                    },
                    _ => {
                        proof {
                            lemma_extract_entries_err(esv, i as int + 1, DecodeError::TypeMismatch);
                        }
                        return Err(DecodeError::TypeMismatch);
                    },
                }
                i += 1;
            }
            proof {
                assert(esv.take(i as int) =~= esv);
            }
            Ok(out)
        },
        _ => Err(DecodeError::TypeMismatch),
    }
}

/// Decodes a natives object, as `spec_decode_natives`.
pub fn decode_natives(r: &Raw) -> (res: Result<Natives, DecodeError>)
    ensures
        res_view(res) == spec_decode_natives(*r),
{
    match r {
        Raw::Object(es) => {
            let allowed = natives_allowed();
            if let Some(e) = check_keys(es, &allowed) {
                return Err(e);
            }
            let linux = match field_opt_string(es, "linux") {
                Ok(v) => v,
                Err(e) => return Err(e),
            };
            let osx = match field_opt_string(es, "osx") {
                Ok(v) => v,
                Err(e) => return Err(e),
            };
            let windows = match field_opt_string(es, "windows") {
                Ok(v) => v,
                Err(e) => return Err(e),
            };
            Ok(Natives { linux, osx, windows })
        },
        _ => Err(DecodeError::TypeMismatch),
    }
}

/// Decodes a dependency's downloads object, as `spec_decode_lib_downloads`.
pub fn decode_lib_downloads(r: &Raw) -> (res: Result<Downloads, DecodeError>)
    ensures
        res_view(res) == spec_decode_lib_downloads(*r),
{
    match r {
        Raw::Object(es) => {
            let allowed = lib_downloads_allowed();
            if let Some(e) = check_keys(es, &allowed) {
                return Err(e);
            }
            let artifact = match obj_get(es, "artifact") {
                None => None,
                Some(v) => match v {
                    Raw::Null => None,
                    _ => match decode_artifact(v) {
                        Ok(a) => Some(a),
                        Err(e) => return Err(e),
                    },
                },
            };
            let classifiers = match obj_get(es, "classifiers") {
                None => None,
                Some(v) => match v {
                    Raw::Null => None,
                    _ => match decode_classifiers(v) {
                        Ok(cs) => Some(cs),
                        Err(e) => return Err(e),
                    },
                },
            };
            Ok(Downloads { artifact, classifiers })
        },
        _ => Err(DecodeError::TypeMismatch),
    }
}

/// Decodes a dependency object, as `spec_decode_library`.
pub fn decode_library(r: &Raw) -> (res: Result<Library, DecodeError>)
    ensures
        res_view(res) == spec_decode_library(*r),
{
    match r {
        Raw::Object(es) => {
            let allowed = library_allowed();
            if let Some(e) = check_keys(es, &allowed) {
                return Err(e);
            }
            let downloads = match obj_get(es, "downloads") {
                None => None,
                Some(v) => match v {
                    Raw::Null => None,
                    _ => match decode_lib_downloads(v) {
                        Ok(d) => Some(d),
                        Err(e) => return Err(e),
                    },
                },
            };
            let name = match field_string(es, "name") {
                Ok(v) => v,
                Err(e) => return Err(e),
            };
            let extract = match obj_get(es, "extract") {
                None => None,
                Some(v) => match v {
                    Raw::Null => None,
                    _ => match decode_extract(v) {
                        Ok(x) => Some(x),
                        Err(e) => return Err(e),
                    },
                },
            };
            let natives = match obj_get(es, "natives") {
                None => None,
                Some(v) => match v {
                    Raw::Null => None,
                    _ => match decode_natives(v) {
                        Ok(n) => Some(n),
                        Err(e) => return Err(e),
                    },
                },
            };
            let rules = match obj_get(es, "rules") {
                None => None,
                Some(v) => match v {
                    Raw::Null => None,
                    Raw::List(items) => match decode_rules(items) {
                        Ok(rs) => Some(rs),
                        Err(e) => return Err(e),
                    },
                    _ => return Err(DecodeError::TypeMismatch),
                },
            };
            Ok(Library { downloads, name, extract, natives, rules })
        },
        _ => Err(DecodeError::TypeMismatch),
    }
}

/// A failed prefix fails the whole dependency-list walk, with its error.
proof fn lemma_libraries_err(items: Seq<Raw>, k: int, e: DecodeError)
    requires
        0 <= k <= items.len(),
        spec_decode_libraries(items.take(k)) == Err::<Seq<LibraryV>, DecodeError>(e),
    ensures
        spec_decode_libraries(items) == Err::<Seq<LibraryV>, DecodeError>(e),
    decreases items.len() - k,
{
    if k == items.len() {
        assert(items.take(k) =~= items);
    } else {
        assert(items.take(k + 1).drop_last() =~= items.take(k));
        assert(items.take(k + 1).last() == items[k]);
        lemma_libraries_err(items, k + 1, e);
    }
}

/// Decodes an ordered dependency list, as `spec_decode_libraries`.
#[verifier::loop_isolation(false)]
pub fn decode_libraries(items: &Vec<Raw>) -> (res: Result<Vec<Library>, DecodeError>)
    ensures
        res_view(res) == spec_decode_libraries(items@),
{
    let ghost iv = items@;
    let mut out: Vec<Library> = Vec::new();
    proof {
        assert(iv.take(0) =~= Seq::<Raw>::empty());
        assert(out.deep_view() =~= Seq::<LibraryV>::empty());
    }
    let mut i: usize = 0;
    while i < items.len()
        invariant
            0 <= i <= iv.len(),
            spec_decode_libraries(iv.take(i as int)) == Ok::<_, DecodeError>(out.deep_view()),
        decreases iv.len() - i,
    {
        proof {
            assert(iv.take(i as int + 1).drop_last() =~= iv.take(i as int));
            assert(iv.take(i as int + 1).last() == iv[i as int]);
        }
        match decode_library(&items[i]) {
            Ok(l) => {
                let ghost lv = l.deep_view();
                let ghost old_dv = out.deep_view();
                out.push(l);
                proof {
                    assert(out.deep_view() =~= old_dv.push(lv));
                }
            },
            Err(e) => {
                proof {
                    lemma_libraries_err(iv, i as int + 1, e);
                }
                return Err(e);
            },
        }
        i += 1;
    }
    proof {
        assert(iv.take(i as int) =~= iv);
    }
    Ok(out)
}

/// Whether a dependency applies in the context: absent conditions always
/// include it; present ones decide as the evaluator does.
pub open spec fn spec_lib_included(l: LibraryV, ctx: crate::rule::ContextV) -> bool {
    match l.rules {
        None => true,
        Some(rs) => spec_evaluate(rs, ctx),
    }
}

/// The dependencies that apply in the context, in their original order.
pub open spec fn spec_select_libraries(libs: Seq<LibraryV>, ctx: crate::rule::ContextV) -> Seq<
    LibraryV,
>
    decreases libs.len(),
{
    if libs.len() == 0 {
        Seq::<LibraryV>::empty()
    } else {
        let pre = spec_select_libraries(libs.drop_last(), ctx);
        if spec_lib_included(libs.last(), ctx) {
            pre.push(libs.last())
        } else {
            pre
        }
    }
}

/// Filters the dependency list by each dependency's own conditions,
/// keeping the original order, as `spec_select_libraries`.
#[verifier::loop_isolation(false)]
pub fn select_libraries<'a>(libs: &'a Vec<Library>, ctx: &Context) -> (out: Vec<&'a Library>)
    ensures
        out.deep_view() == spec_select_libraries(libs.deep_view(), ctx.deep_view()),
{
    let ghost lv = libs.deep_view();
    let ghost cv = ctx.deep_view();
    let mut out: Vec<&'a Library> = Vec::new();
    proof {
        assert(lv.take(0) =~= Seq::<LibraryV>::empty());
        assert(out.deep_view() =~= Seq::<LibraryV>::empty());
    }
    let mut i: usize = 0;
    while i < libs.len()
        invariant
            0 <= i <= lv.len(),
            out.deep_view() == spec_select_libraries(lv.take(i as int), cv),
        decreases lv.len() - i,
    {
        proof {
            assert(lv.take(i as int + 1).drop_last() =~= lv.take(i as int));
            assert(lv.take(i as int + 1).last() == lv[i as int]);
        }
        let included = match &libs[i].rules {
            None => true,
            Some(rs) => evaluate(rs, ctx),
        };
        proof {
            assert(lv[i as int] == libs@[i as int].deep_view());
            assert(included == spec_lib_included(lv[i as int], cv));
        }
        if included {
            let ghost old_dv = out.deep_view();
            out.push(&libs[i]);
            proof {
                assert(out.deep_view() =~= old_dv.push(lv[i as int]));
            }
        }
        i += 1;
    }
    proof {
        assert(lv.take(i as int) =~= lv);
    }
    out
}

/// The native classifier suffix a dependency names for the context's
/// platform: a lookup by platform family name, yielding at most one.
pub open spec fn spec_native_classifier(l: LibraryV, os_name: Seq<char>) -> Option<Seq<char>> {
    match l.natives {
        None => None,
        Some(n) => if os_name == "linux"@ {
            n.linux
        } else if os_name == "osx"@ {
            n.osx
        } else if os_name == "windows"@ {
            n.windows
        } else {
            None
        },
    }
}

/// Looks up the native classifier suffix for the context's platform, as
/// `spec_native_classifier`.
pub fn native_classifier(l: &Library, ctx: &Context) -> (res: Option<String>)
    ensures
        res.deep_view() == spec_native_classifier(l.deep_view(), ctx.deep_view().os_name),
{
    match &l.natives {
        None => None,
        Some(n) => {
            if string_eq_str(&ctx.os_name, "linux") {
                match &n.linux {
                    Some(s) => Some(s.clone()),
                    None => None,
                }
            } else if string_eq_str(&ctx.os_name, "osx") {
                match &n.osx {
                    Some(s) => Some(s.clone()),
                    None => None,
                }
            } else if string_eq_str(&ctx.os_name, "windows") {
                match &n.windows {
                    Some(s) => Some(s.clone()),
                    None => None,
                }
            } else {
                None
            }
        },
    }
}

} // verus!

verus! {

use crate::raw::{
    opt_string_raw, encode_string_items, keys_distinct, lemma_scan_clean, lemma_scan_dups_clean,
    lemma_lookup_found,
};
use crate::rule::{rules_wf, encode_rules};

/// A downloads object is fit for encoding when its classifier names are
/// unrepeated.
pub open spec fn lib_downloads_wf(d: DownloadsV) -> bool {
    match d.classifiers {
        Some(cs) => keys_distinct(cs),
        None => true,
    }
}

/// A dependency is fit for encoding when its mappings carry unrepeated
/// keys and its conditions are themselves fit.
pub open spec fn library_wf(l: LibraryV) -> bool {
    &&& match l.downloads {
        Some(d) => lib_downloads_wf(d),
        None => true,
    }
    &&& match l.extract {
        Some(x) => keys_distinct(x),
        None => true,
    }
    &&& match l.rules {
        Some(rs) => rules_wf(rs),
        None => true,
    }
}

/// Every dependency of the list is fit for encoding.
pub open spec fn libraries_wf(ls: Seq<LibraryV>) -> bool {
    forall|i: int| 0 <= i < ls.len() ==> library_wf(#[trigger] ls[i])
}

/// Encodes an artifact; decoding gives it back.
pub fn encode_artifact(a: &Artifact) -> (out: Raw)
    ensures
        spec_decode_artifact(out) == Ok::<ArtifactV, DecodeError>(a.deep_view()),
{
    let mut es: Vec<(String, Raw)> = Vec::new();
    es.push(("path".to_owned(), Raw::Str(a.path.clone())));
    es.push(("sha1".to_owned(), Raw::Str(a.sha1.clone())));
    es.push(("size".to_owned(), Raw::Int(a.size)));
    es.push(("url".to_owned(), Raw::Str(a.url.clone())));
    proof {
        reveal_strlit("path");
        reveal_strlit("sha1");
        reveal_strlit("size");
        reveal_strlit("url");
        let esv = es@;
        assert(esv.len() == 4);
        assert(esv[0].0@ == "path"@);
        assert(esv[1].0@ == "sha1"@);
        assert(esv[2].0@ == "size"@);
        assert(esv[3].0@ == "url"@);
        assert("path"@.len() == 4 && "sha1"@.len() == 4 && "size"@.len() == 4 && "url"@.len()
            == 3);
        assert("path"@[0] == 'p' && "sha1"@[0] == 's' && "size"@[0] == 's');
        assert("sha1"@[1] == 'h' && "size"@[1] == 'i');
        assert("path"@ != "sha1"@ && "path"@ != "size"@ && "path"@ != "url"@);
        assert("sha1"@ != "size"@ && "sha1"@ != "url"@ && "size"@ != "url"@);
        assert forall|i: int| 0 <= i < esv.len() implies artifact_keys().contains(
            #[trigger] esv[i].0@,
        ) by {
            assert(artifact_keys()[i] == esv[i].0@);
        }
        assert forall|i: int, j: int| 0 <= i < j < esv.len() implies esv[i].0@ != esv[j].0@ by {
            assert(esv[0].0@ == "path"@ && esv[1].0@ == "sha1"@ && esv[2].0@ == "size"@ && esv[3].0@
                == "url"@);
        }
        lemma_scan_clean(Seq::<Seq<char>>::empty(), esv, artifact_keys());
        lemma_lookup_found(esv, "path"@, 0);
        lemma_lookup_found(esv, "sha1"@, 1);
        lemma_lookup_found(esv, "size"@, 2);
        lemma_lookup_found(esv, "url"@, 3);
    }
    Raw::Object(es)
}

/// Encodes a classifier mapping; decoding gives it back, order and all.
#[verifier::loop_isolation(false)]
pub fn encode_classifiers(cs: &Vec<(String, Artifact)>) -> (out: Raw)
    requires
        keys_distinct(cs.deep_view()),
    ensures
        spec_decode_classifiers(out) == Ok::<Seq<(Seq<char>, ArtifactV)>, DecodeError>(
            cs.deep_view(),
        ),
{
    let ghost csv = cs.deep_view();
    let mut es: Vec<(String, Raw)> = Vec::new();
    proof {
        assert(csv.take(0) =~= Seq::<(Seq<char>, ArtifactV)>::empty());
        assert(spec_classifier_entries(es@) == Ok::<Seq<(Seq<char>, ArtifactV)>, DecodeError>(
            csv.take(0),
        ));
    }
    let mut i: usize = 0;
    while i < cs.len()
        invariant
            0 <= i <= csv.len(),
            es@.len() == i,
            spec_classifier_entries(es@) == Ok::<Seq<(Seq<char>, ArtifactV)>, DecodeError>(
                csv.take(i as int),
            ),
            forall|k: int| 0 <= k < i ==> #[trigger] es@[k].0@ == csv[k].0,
        decreases csv.len() - i,
    {
        let ghost old_es = es@;
        proof {
            assert(csv[i as int] == (cs@[i as int].0@, cs@[i as int].1.deep_view()));
        }
        let a = encode_artifact(&cs[i].1);
        es.push((cs[i].0.clone(), a));
        proof {
            assert(es@.drop_last() =~= old_es);
            assert(es@.last() == es@[i as int]);
            assert(csv.take(i as int + 1) =~= csv.take(i as int).push(csv[i as int]));
        }
        i += 1;
    }
    proof {
        assert(csv.take(i as int) =~= csv);
        assert forall|a: int, b: int| 0 <= a < b < es@.len() implies es@[a].0@ != es@[b].0@ by {
            assert(es@[a].0@ == csv[a].0);
            assert(es@[b].0@ == csv[b].0);
        }
        lemma_scan_dups_clean(Seq::<Seq<char>>::empty(), es@);
    }
    Raw::Object(es)
}

/// Encodes an extraction directive; decoding gives it back, order and all.
#[verifier::loop_isolation(false)]
pub fn encode_extract(x: &Extract) -> (out: Raw)
    requires
        keys_distinct(x.deep_view()),
    ensures
        spec_decode_extract(out) == Ok::<Seq<(Seq<char>, Seq<Seq<char>>)>, DecodeError>(
            x.deep_view(),
        ),
{
    let ghost xv = x.deep_view();
    let mut es: Vec<(String, Raw)> = Vec::new();
    proof {
        assert(xv.take(0) =~= Seq::<(Seq<char>, Seq<Seq<char>>)>::empty());
        assert(spec_extract_entries(es@) == Ok::<Seq<(Seq<char>, Seq<Seq<char>>)>, DecodeError>(
            xv.take(0),
        ));
    }
    let mut i: usize = 0;
    while i < x.len()
        invariant
            0 <= i <= xv.len(),
            es@.len() == i,
            spec_extract_entries(es@) == Ok::<Seq<(Seq<char>, Seq<Seq<char>>)>, DecodeError>(
                xv.take(i as int),
            ),
            forall|k: int| 0 <= k < i ==> #[trigger] es@[k].0@ == xv[k].0,
        decreases xv.len() - i,
    {
        let ghost old_es = es@;
        proof {
            assert(xv[i as int] == (x@[i as int].0@, x@[i as int].1.deep_view()));
        }
        let pats = encode_string_items(&x[i].1);
        es.push((x[i].0.clone(), Raw::List(pats)));
        proof {
            assert(es@.drop_last() =~= old_es);
            assert(es@.last() == es@[i as int]);
            assert(xv.take(i as int + 1) =~= xv.take(i as int).push(xv[i as int]));
        }
        i += 1;
    }
    proof {
        assert(xv.take(i as int) =~= xv);
        assert forall|a: int, b: int| 0 <= a < b < es@.len() implies es@[a].0@ != es@[b].0@ by {
            assert(es@[a].0@ == xv[a].0);
            assert(es@[b].0@ == xv[b].0);
        }
        lemma_scan_dups_clean(Seq::<Seq<char>>::empty(), es@);
    }
    Raw::Object(es)
}

/// Encodes a natives object; decoding gives it back.
pub fn encode_natives(n: &Natives) -> (out: Raw)
    ensures
        spec_decode_natives(out) == Ok::<NativesV, DecodeError>(n.deep_view()),
{
    let mut es: Vec<(String, Raw)> = Vec::new();
    es.push(("linux".to_owned(), opt_string_raw(&n.linux)));
    es.push(("osx".to_owned(), opt_string_raw(&n.osx)));
    es.push(("windows".to_owned(), opt_string_raw(&n.windows)));
    proof {
        reveal_strlit("linux");
        reveal_strlit("osx");
        reveal_strlit("windows");
        let esv = es@;
        assert(esv.len() == 3);
        assert(esv[0].0@ == "linux"@);
        assert(esv[1].0@ == "osx"@);
        assert(esv[2].0@ == "windows"@);
        assert("linux"@ != "osx"@ && "linux"@ != "windows"@ && "osx"@ != "windows"@);
        assert forall|i: int| 0 <= i < esv.len() implies natives_keys().contains(
            #[trigger] esv[i].0@,
        ) by {
            assert(natives_keys()[i] == esv[i].0@);
        }
        assert forall|i: int, j: int| 0 <= i < j < esv.len() implies esv[i].0@ != esv[j].0@ by {
            assert(esv[0].0@ == "linux"@ && esv[1].0@ == "osx"@ && esv[2].0@ == "windows"@);
        }
        lemma_scan_clean(Seq::<Seq<char>>::empty(), esv, natives_keys());
        lemma_lookup_found(esv, "linux"@, 0);
        lemma_lookup_found(esv, "osx"@, 1);
        lemma_lookup_found(esv, "windows"@, 2);
    }
    Raw::Object(es)
}

/// Encodes a dependency's downloads; decoding gives them back.
pub fn encode_lib_downloads(d: &Downloads) -> (out: Raw)
    requires
        lib_downloads_wf(d.deep_view()),
    ensures
        spec_decode_lib_downloads(out) == Ok::<DownloadsV, DecodeError>(d.deep_view()),
{
    let artifact_raw = match &d.artifact {
        Some(a) => encode_artifact(a),
        None => Raw::Null,
    };
    let classifiers_raw = match &d.classifiers {
        Some(cs) => {
            proof {
                assert(d.deep_view().classifiers == Some(cs.deep_view()));
            }
            encode_classifiers(cs)
        },
        None => Raw::Null,
    };
    let mut es: Vec<(String, Raw)> = Vec::new();
    es.push(("artifact".to_owned(), artifact_raw));
    es.push(("classifiers".to_owned(), classifiers_raw));
    proof {
        reveal_strlit("artifact");
        reveal_strlit("classifiers");
        let esv = es@;
        assert(esv.len() == 2);
        assert(esv[0].0@ == "artifact"@);
        assert(esv[1].0@ == "classifiers"@);
        assert("artifact"@ != "classifiers"@);
        assert forall|i: int| 0 <= i < esv.len() implies lib_downloads_keys().contains(
            #[trigger] esv[i].0@,
        ) by {
            assert(lib_downloads_keys()[i] == esv[i].0@);
        }
        assert forall|i: int, j: int| 0 <= i < j < esv.len() implies esv[i].0@ != esv[j].0@ by {
            assert(esv[0].0@ == "artifact"@ && esv[1].0@ == "classifiers"@);
        }
        lemma_scan_clean(Seq::<Seq<char>>::empty(), esv, lib_downloads_keys());
        lemma_lookup_found(esv, "artifact"@, 0);
        lemma_lookup_found(esv, "classifiers"@, 1);
        match &d.artifact {
            Some(_) => {
                assert(!(esv[0].1 is Null));
                assert(spec_opt_artifact(esv) == Ok::<Option<ArtifactV>, DecodeError>(
                    d.artifact.deep_view(),
                ));
            },
            None => {
                assert(spec_opt_artifact(esv) == Ok::<Option<ArtifactV>, DecodeError>(None));
            },
        }
        match &d.classifiers {
            Some(_) => {
                assert(!(esv[1].1 is Null));
                assert(spec_opt_classifiers(esv) == Ok::<
                    Option<Seq<(Seq<char>, ArtifactV)>>,
                    DecodeError,
                >(d.classifiers.deep_view()));
            },
            None => {
                assert(spec_opt_classifiers(esv) == Ok::<
                    Option<Seq<(Seq<char>, ArtifactV)>>,
                    DecodeError,
                >(None));
            },
        }
    }
    Raw::Object(es)
}

/// Encodes a dependency; decoding gives it back.
pub fn encode_library(l: &Library) -> (out: Raw)
    requires
        library_wf(l.deep_view()),
    ensures
        spec_decode_library(out) == Ok::<LibraryV, DecodeError>(l.deep_view()),
{
    let downloads_raw = match &l.downloads {
        Some(d) => {
            proof {
                assert(l.deep_view().downloads == Some(d.deep_view()));
            }
            encode_lib_downloads(d)
        },
        None => Raw::Null,
    };
    let extract_raw = match &l.extract {
        Some(x) => {
            proof {
                assert(l.deep_view().extract == Some(x.deep_view()));
            }
            encode_extract(x)
        },
        None => Raw::Null,
    };
    let natives_raw = match &l.natives {
        Some(n) => encode_natives(n),
        None => Raw::Null,
    };
    let rules_raw = match &l.rules {
        Some(rs) => {
            proof {
                assert(l.deep_view().rules == Some(rs.deep_view()));
            }
            Raw::List(encode_rules(rs))
        },
        None => Raw::Null,
    };
    let mut es: Vec<(String, Raw)> = Vec::new();
    es.push(("downloads".to_owned(), downloads_raw));
    es.push(("name".to_owned(), Raw::Str(l.name.clone())));
    es.push(("extract".to_owned(), extract_raw));
    es.push(("natives".to_owned(), natives_raw));
    es.push(("rules".to_owned(), rules_raw));
    proof {
        reveal_strlit("downloads");
        reveal_strlit("name");
        reveal_strlit("extract");
        reveal_strlit("natives");
        reveal_strlit("rules");
        let esv = es@;
        assert(esv.len() == 5);
        assert(esv[0].0@ == "downloads"@);
        assert(esv[1].0@ == "name"@);
        assert(esv[2].0@ == "extract"@);
        assert(esv[3].0@ == "natives"@);
        assert(esv[4].0@ == "rules"@);
        assert("downloads"@ != "name"@ && "downloads"@ != "extract"@ && "downloads"@ != "natives"@
            && "downloads"@ != "rules"@);
        assert("name"@ != "extract"@ && "name"@ != "natives"@ && "name"@ != "rules"@);
        assert("extract"@.len() == 7 && "natives"@.len() == 7 && "rules"@.len() == 5);
        assert("extract"@[0] == 'e' && "natives"@[0] == 'n');
        assert("extract"@ != "natives"@ && "extract"@ != "rules"@);
        assert("natives"@ != "rules"@);
        assert forall|i: int| 0 <= i < esv.len() implies library_keys().contains(
            #[trigger] esv[i].0@,
        ) by {
            assert(library_keys()[i] == esv[i].0@);
        }
        assert forall|i: int, j: int| 0 <= i < j < esv.len() implies esv[i].0@ != esv[j].0@ by {
            assert(esv[0].0@ == "downloads"@ && esv[1].0@ == "name"@ && esv[2].0@ == "extract"@
                && esv[3].0@ == "natives"@ && esv[4].0@ == "rules"@);
        }
        lemma_scan_clean(Seq::<Seq<char>>::empty(), esv, library_keys());
        lemma_lookup_found(esv, "downloads"@, 0);
        lemma_lookup_found(esv, "name"@, 1);
        lemma_lookup_found(esv, "extract"@, 2);
        lemma_lookup_found(esv, "natives"@, 3);
        lemma_lookup_found(esv, "rules"@, 4);
        match &l.downloads {
            Some(_) => {
                assert(!(esv[0].1 is Null));
                assert(spec_opt_lib_downloads(esv) == Ok::<Option<DownloadsV>, DecodeError>(
                    l.downloads.deep_view(),
                ));
            },
            None => {
                assert(spec_opt_lib_downloads(esv) == Ok::<Option<DownloadsV>, DecodeError>(None));
            },
        }
        match &l.extract {
            Some(_) => {
                assert(!(esv[2].1 is Null));
                assert(spec_opt_extract(esv) == Ok::<
                    Option<Seq<(Seq<char>, Seq<Seq<char>>)>>,
                    DecodeError,
                >(l.extract.deep_view()));
            },
            None => {
                assert(spec_opt_extract(esv) == Ok::<
                    Option<Seq<(Seq<char>, Seq<Seq<char>>)>>,
                    DecodeError,
                >(None));
            },
        }
        match &l.natives {
            Some(_) => {
                assert(!(esv[3].1 is Null));
                assert(spec_opt_natives(esv) == Ok::<Option<NativesV>, DecodeError>(
                    l.natives.deep_view(),
                ));
            },
            None => {
                assert(spec_opt_natives(esv) == Ok::<Option<NativesV>, DecodeError>(None));
            },
        }
        match &l.rules {
            Some(_) => {
                assert(esv[4].1 is List);
                assert(spec_opt_rules(esv) == Ok::<Option<Seq<RuleV>>, DecodeError>(
                    l.rules.deep_view(),
                ));
            },
            None => {
                assert(spec_opt_rules(esv) == Ok::<Option<Seq<RuleV>>, DecodeError>(None));
            },
        }
    }
    Raw::Object(es)
}

/// Encodes an ordered dependency list; decoding gives it back in order.
#[verifier::loop_isolation(false)]
pub fn encode_libraries(libs: &Vec<Library>) -> (out: Vec<Raw>)
    requires
        libraries_wf(libs.deep_view()),
    ensures
        spec_decode_libraries(out@) == Ok::<Seq<LibraryV>, DecodeError>(libs.deep_view()),
{
    let ghost lv = libs.deep_view();
    let mut out: Vec<Raw> = Vec::new();
    proof {
        assert(lv.take(0) =~= Seq::<LibraryV>::empty());
        assert(spec_decode_libraries(out@) == Ok::<Seq<LibraryV>, DecodeError>(lv.take(0)));
    }
    let mut i: usize = 0;
    while i < libs.len()
        invariant
            0 <= i <= lv.len(),
            out@.len() == i,
            spec_decode_libraries(out@) == Ok::<Seq<LibraryV>, DecodeError>(lv.take(i as int)),
        decreases lv.len() - i,
    {
        proof {
            assert(lv[i as int] == libs@[i as int].deep_view());
            assert(library_wf(lv[i as int]));
        }
        let ghost old_out = out@;
        let item = encode_library(&libs[i]);
        out.push(item);
        proof {
            assert(out@.drop_last() =~= old_out);
            assert(out@.last() == out@[i as int]);
            assert(lv.take(i as int + 1) =~= lv.take(i as int).push(lv[i as int]));
        }
        i += 1;
    }
    proof {
        assert(lv.take(i as int) =~= lv);
    }
    out
}

} // verus!

verus! {

/// The artifact under a classifier name, taking the first entry that
/// carries it.
pub open spec fn spec_classifier_lookup(cs: Seq<(Seq<char>, ArtifactV)>, key: Seq<char>) -> Option<
    ArtifactV,
>
    decreases cs.len(),
{
    if cs.len() == 0 {
        None
    } else if cs[0].0 == key {
        Some(cs[0].1)
    } else {
        spec_classifier_lookup(cs.skip(1), key)
    }
}

/// The native artifact a dependency carries for the context's platform:
/// the per-platform classifier suffix, looked up among the classifier
/// downloads; zero or one artifact.
pub open spec fn spec_native_download(l: LibraryV, os_name: Seq<char>) -> Option<ArtifactV> {
    match spec_native_classifier(l, os_name) {
        None => None,
        Some(key) => match l.downloads {
            None => None,
            Some(d) => match d.classifiers {
                None => None,
                Some(cs) => spec_classifier_lookup(cs, key),
            },
        },
    }
}

/// Finds the artifact under a classifier name, as `spec_classifier_lookup`.
fn classifier_get<'a>(cs: &'a Vec<(String, Artifact)>, key: &String) -> (r: Option<&'a Artifact>)
    ensures
        match r {
            Some(a) => spec_classifier_lookup(cs.deep_view(), key@) == Some(a.deep_view()),
            None => spec_classifier_lookup(cs.deep_view(), key@) is None,
        },
{
    let ghost csv = cs.deep_view();
    proof {
        assert(csv.skip(0) =~= csv);
    }
    let mut i: usize = 0;
    while i < cs.len()
        invariant
            0 <= i <= cs@.len(),
            csv == cs.deep_view(),
            csv.len() == cs@.len(),
            spec_classifier_lookup(csv.skip(i as int), key@) == spec_classifier_lookup(csv, key@),
        decreases cs@.len() - i,
    {
        proof {
            assert(csv.skip(i as int)[0] == csv[i as int]);
            assert(csv[i as int] == (cs@[i as int].0@, cs@[i as int].1.deep_view()));
            assert(csv.skip(i as int).skip(1) =~= csv.skip(i as int + 1));
        }
        if string_eq_str(&cs[i].0, key.as_str()) {
            return Some(&cs[i].1);
        }
        i += 1;
    }
    proof {
        assert(csv.skip(i as int).len() == 0);
    }
    None
}

/// Resolves the native artifact to fetch for the context's platform, as
/// `spec_native_download`.
pub fn native_download(l: &Library, ctx: &Context) -> (res: Option<Artifact>)
    ensures
        res.deep_view() == spec_native_download(l.deep_view(), ctx.deep_view().os_name),
{
    let key = match native_classifier(l, ctx) {
        None => return None,
        Some(k) => k,
    };
    match &l.downloads {
        None => None,
        Some(d) => match &d.classifiers {
            None => None,
            Some(cs) => match classifier_get(cs, &key) {
                Some(a) => Some(a.clone_artifact()),
                None => None,
            },
        },
    }
}

impl Artifact {
    /// A field-for-field copy.
    pub fn clone_artifact(&self) -> (r: Artifact)
        ensures
            r.deep_view() == self.deep_view(),
    {
        Artifact {
            path: self.path.clone(),
            sha1: self.sha1.clone(),
            size: self.size,
            url: self.url.clone(),
        }
    }
}

} // verus!

verus! {

use crate::raw::keys_unique;
use crate::rule::rules_encodable;

/// Decides whether a downloads object meets what its encoder requires, as
/// `lib_downloads_wf`.
pub fn lib_downloads_encodable(d: &Downloads) -> (b: bool)
    ensures
        b == lib_downloads_wf(d.deep_view()),
{
    match &d.classifiers {
        None => true,
        Some(cs) => {
            proof {
                assert(d.deep_view().classifiers == Some(cs.deep_view()));
            }
            keys_unique(cs)
        },
    }
}

/// Decides whether a dependency meets what its encoder requires, as
/// `library_wf`.
pub fn library_encodable(l: &Library) -> (b: bool)
    ensures
        b == library_wf(l.deep_view()),
{
    let d_ok = match &l.downloads {
        None => true,
        Some(d) => {
            proof {
                assert(l.deep_view().downloads == Some(d.deep_view()));
            }
            lib_downloads_encodable(d)
        },
    };
    let x_ok = match &l.extract {
        None => true,
        Some(x) => {
            proof {
                assert(l.deep_view().extract == Some(x.deep_view()));
            }
            keys_unique(x)
        },
    };
    let r_ok = match &l.rules {
        None => true,
        Some(rs) => {
            proof {
                assert(l.deep_view().rules == Some(rs.deep_view()));
            }
            rules_encodable(rs)
        },
    };
    d_ok && x_ok && r_ok
}

/// Decides whether every dependency of the list meets what its encoder
/// requires, as `libraries_wf`.
#[verifier::loop_isolation(false)]
pub fn libraries_encodable(libs: &Vec<Library>) -> (b: bool)
    ensures
        b == libraries_wf(libs.deep_view()),
{
    let ghost lv = libs.deep_view();
    let mut i: usize = 0;
    while i < libs.len()
        invariant
            0 <= i <= lv.len(),
            forall|k: int| 0 <= k < i ==> library_wf(#[trigger] lv[k]),
        decreases lv.len() - i,
    {
        proof {
            assert(lv[i as int] == libs@[i as int].deep_view());
        }
        if !library_encodable(&libs[i]) {
            proof {
                assert(!library_wf(lv[i as int]));
            }
            return false;
        }
        i += 1;
    }
    true
}

} // verus!
