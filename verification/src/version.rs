use vstd::prelude::*;

use crate::error::DecodeError;
use crate::raw::{
    Raw, res_view, lookup, scan_keys, spec_field_string, spec_field_opt_string, spec_field_u64,
    spec_field_u8, spec_field_opt_u8, spec_string_items, field_string, field_opt_string, field_u64,
    field_u8, field_opt_u8, check_keys, obj_get, decode_string_items, string_eq_str,
};
use crate::rule::{
    Rule, RuleV, ContextV, spec_decode_rules, decode_rules, spec_evaluate, evaluate, Context,
};
use crate::library::{Library, LibraryV, spec_decode_libraries, decode_libraries};
use crate::logging::{Logging, LoggingV, spec_decode_logging, decode_logging};

verus! {

/// One argument entry: the conditions gating it, and the tokens it adds
/// when included. An entry decoded from a bare string is unconditional and
/// holds exactly that one token.
#[derive(Debug, Clone, PartialEq, Eq, Hash)]
pub struct Argument {
    pub rules: Vec<Rule>,
    pub values: Vec<String>,
}

/// The mathematical shape of `Argument`.
pub struct ArgumentV {
    pub rules: Seq<RuleV>,
    pub values: Seq<Seq<char>>,
}

impl DeepView for Argument {
    type V = ArgumentV;

    open spec fn deep_view(&self) -> ArgumentV {
        ArgumentV { rules: self.rules.deep_view(), values: self.values.deep_view() }
    }
}

impl Argument {
    /// The unconditional entry holding exactly this one token.
    pub fn bare(s: &str) -> (a: Argument)
        ensures
            a.deep_view().rules == Seq::<RuleV>::empty(),
            a.deep_view().values == seq![s@],
    {
        let mut values: Vec<String> = Vec::new();
        values.push(s.to_owned());
        let a = Argument { rules: Vec::new(), values };
        proof {
            assert(a.deep_view().rules =~= Seq::<RuleV>::empty());
            assert(a.deep_view().values =~= seq![s@]);
        }
        a
    }
}

impl core::str::FromStr for Argument {
    type Err = ();

    fn from_str(s: &str) -> Result<Argument, ()> {
        Ok(Argument::bare(s))
    }
}

/// A raw value that is one scalar string or an ordered sequence of
/// strings, as one canonical ordered sequence: a scalar becomes the
/// one-element sequence, a sequence stays as it is, in order; any other
/// shape is a shape fault.
pub open spec fn spec_normalize(r: Raw) -> Result<Seq<Seq<char>>, DecodeError> {
    match r {
        Raw::Str(s) => Ok(seq![s@]),
        Raw::List(items) => spec_string_items(items@),
        _ => Err(DecodeError::TypeMismatch),
    }
}

/// Normalizes a scalar-or-sequence value, as `spec_normalize`.
pub fn normalize(r: &Raw) -> (res: Result<Vec<String>, DecodeError>)
    ensures
        res_view(res) == spec_normalize(*r),
{
    match r {
        Raw::Str(s) => {
            let mut out: Vec<String> = Vec::new();
            out.push(s.clone());
            proof {
                assert(out.deep_view() =~= seq![s@]);
            }
            Ok(out)
        },
        Raw::List(items) => decode_string_items(items),
        _ => Err(DecodeError::TypeMismatch),
    }
}

/// A scalar normalizes to exactly the one-element sequence holding it.
pub proof fn lemma_normalize_scalar(s: String)
    ensures
        spec_normalize(Raw::Str(s)) == Ok::<Seq<Seq<char>>, DecodeError>(seq![s@]),
        spec_normalize(Raw::Str(s))->Ok_0.len() == 1,
{
}

/// A walk over all-string items returns them unchanged, in order.
proof fn lemma_string_items_all(items: Seq<Raw>)
    requires
        forall|i: int| 0 <= i < items.len() ==> (#[trigger] items[i]) is Str,
    ensures
        spec_string_items(items) is Ok,
        spec_string_items(items)->Ok_0.len() == items.len(),
        forall|i: int|
            0 <= i < items.len() ==> spec_string_items(items)->Ok_0[i] == (
            #[trigger] items[i])->Str_0@,
    decreases items.len(),
{
    if items.len() > 0 {
        assert forall|i: int| 0 <= i < items.drop_last().len() implies (
        #[trigger] items.drop_last()[i]) is Str by {
            assert(items.drop_last()[i] == items[i]);
        }
        lemma_string_items_all(items.drop_last());
        assert forall|i: int|
            0 <= i < items.len() implies spec_string_items(items)->Ok_0[i] == (
        #[trigger] items[i])->Str_0@ by {
            if i < items.len() - 1 {
                assert(items.drop_last()[i] == items[i]);
                assert(spec_string_items(items)->Ok_0[i] == spec_string_items(
                    items.drop_last(),
                )->Ok_0[i]);
            }
        }
    }
}

/// A sequence of strings normalizes to itself: same length, same strings,
/// same order.
pub proof fn lemma_normalize_sequence(items: Vec<Raw>)
    requires
        forall|i: int| 0 <= i < items@.len() ==> (#[trigger] items@[i]) is Str,
    ensures
        spec_normalize(Raw::List(items)) is Ok,
        spec_normalize(Raw::List(items))->Ok_0.len() == items@.len(),
        forall|i: int|
            0 <= i < items@.len() ==> spec_normalize(Raw::List(items))->Ok_0[i] == (
            #[trigger] items@[i])->Str_0@,
{
    lemma_string_items_all(items@);
}

/// A value that is neither a scalar string nor a sequence fails to
/// normalize, with a shape fault.
pub proof fn lemma_normalize_other(r: Raw)
    requires
        !(r is Str),
        !(r is List),
    ensures
        spec_normalize(r) == Err::<Seq<Seq<char>>, DecodeError>(DecodeError::TypeMismatch),
{
}

/// The keys a conditional entry object may carry.
pub open spec fn argument_keys() -> Seq<Seq<char>> {
    seq!["rules"@, "value"@]
}

/// A conditional entry: a bare string is unconditional with that one
/// token; an object must carry exactly the conditions (a list) and the
/// scalar-or-sequence value, both required; anything else is a shape
/// fault.
pub open spec fn spec_decode_argument(r: Raw) -> Result<ArgumentV, DecodeError> {
    match r {
        Raw::Str(s) => Ok(ArgumentV { rules: Seq::<RuleV>::empty(), values: seq![s@] }),
        Raw::Object(es) => match scan_keys(Seq::<Seq<char>>::empty(), es@, argument_keys()) {
            Some(e) => Err(e),
            None => match lookup(es@, "rules"@) {
                None => Err(DecodeError::MissingField),
                Some(Raw::List(items)) => match spec_decode_rules(items@) {
                    Err(e) => Err(e),
                    Ok(rules) => match lookup(es@, "value"@) {
                        None => Err(DecodeError::MissingField),
                        Some(v) => match spec_normalize(v) {
                            Err(e) => Err(e),
                            Ok(values) => Ok(ArgumentV { rules, values }),
                        },
                    },
                },
                Some(_) => Err(DecodeError::TypeMismatch),
            },
        },
        _ => Err(DecodeError::TypeMismatch),
    }
}

/// The allowed keys of a conditional entry object, for the scanner.
fn argument_allowed() -> (v: Vec<&'static str>)
    ensures
        v.deep_view() == argument_keys(),
{
    let mut v: Vec<&'static str> = Vec::new();
    v.push("rules");
    v.push("value");
    proof {
        assert(v.deep_view() =~= argument_keys());
    }
    v
}

/// Decodes a conditional entry, as `spec_decode_argument`.
pub fn decode_argument(r: &Raw) -> (res: Result<Argument, DecodeError>)
    ensures
        res_view(res) == spec_decode_argument(*r),
{
    match r {
        Raw::Str(s) => {
            let a = Argument::bare(s.as_str());
            proof {
                assert(a.deep_view() == ArgumentV {
                    rules: Seq::<RuleV>::empty(),
                    values: seq![s@],
                });
            }
            Ok(a)
        },
        Raw::Object(es) => {
            let allowed = argument_allowed();
            if let Some(e) = check_keys(es, &allowed) {
                return Err(e);
            }
            let rules = match obj_get(es, "rules") {
                None => return Err(DecodeError::MissingField),
                Some(v) => match v {
                    Raw::List(items) => match decode_rules(items) {
                        Ok(rs) => rs,
                        Err(e) => return Err(e),
                    },
                    _ => return Err(DecodeError::TypeMismatch),
                },
            };
            let values = match obj_get(es, "value") {
                None => return Err(DecodeError::MissingField),
                Some(v) => match normalize(v) {
                    Ok(vs) => vs,
                    Err(e) => return Err(e),
                },
            };
            Ok(Argument { rules, values })
        },
        _ => Err(DecodeError::TypeMismatch),
    }
}

/// Ordered entries of an argument list, each a conditional entry.
pub open spec fn spec_decode_argument_items(items: Seq<Raw>) -> Result<Seq<ArgumentV>, DecodeError>
    decreases items.len(),
{
    if items.len() == 0 {
        Ok(Seq::<ArgumentV>::empty())
    } else {
        match spec_decode_argument_items(items.drop_last()) {
            Ok(pre) => match spec_decode_argument(items.last()) {
                Ok(a) => Ok(pre.push(a)),
                Err(e) => Err(e),
            },
            Err(e) => Err(e),
        }
    }
}

/// A failed prefix fails the whole entry-list walk, with its error.
proof fn lemma_argument_items_err(items: Seq<Raw>, k: int, e: DecodeError)
    requires
        0 <= k <= items.len(),
        spec_decode_argument_items(items.take(k)) == Err::<Seq<ArgumentV>, DecodeError>(e),
    ensures
        spec_decode_argument_items(items) == Err::<Seq<ArgumentV>, DecodeError>(e),
    decreases items.len() - k,
{
    if k == items.len() {
        assert(items.take(k) =~= items);
    } else {
        assert(items.take(k + 1).drop_last() =~= items.take(k));
        assert(items.take(k + 1).last() == items[k]);
        lemma_argument_items_err(items, k + 1, e);
    }
}

/// Decodes an ordered argument list, as `spec_decode_argument_items`.
#[verifier::loop_isolation(false)]
pub fn decode_argument_items(items: &Vec<Raw>) -> (res: Result<Vec<Argument>, DecodeError>)
    ensures
        res_view(res) == spec_decode_argument_items(items@),
{
    let ghost iv = items@;
    let mut out: Vec<Argument> = Vec::new();
    proof {
        assert(iv.take(0) =~= Seq::<Raw>::empty());
        assert(out.deep_view() =~= Seq::<ArgumentV>::empty());
    }
    let mut i: usize = 0;
    while i < items.len()
        invariant
            0 <= i <= iv.len(),
            spec_decode_argument_items(iv.take(i as int)) == Ok::<_, DecodeError>(out.deep_view()),
        decreases iv.len() - i,
    {
        proof {
            assert(iv.take(i as int + 1).drop_last() =~= iv.take(i as int));
            assert(iv.take(i as int + 1).last() == iv[i as int]);
        }
        match decode_argument(&items[i]) {
            Ok(a) => {
                let ghost av = a.deep_view();
                let ghost old_dv = out.deep_view();
                out.push(a);
                proof {
                    assert(out.deep_view() =~= old_dv.push(av));
                }
            },
            Err(e) => {
                proof {
                    lemma_argument_items_err(iv, i as int + 1, e);
                }
                return Err(e);
            },
        }
        i += 1;
    }
    proof {
        assert(iv.take(i as int) =~= iv);
    }
    Ok(out)
}

/// The two ordered argument lists: for the game, and for the JVM. Order is
/// significant and preserved through filtering.
#[derive(Debug, Clone, PartialEq, Eq, Hash)]
pub struct Arguments {
    pub game: Vec<Argument>,
    pub jvm: Vec<Argument>,
}

/// The mathematical shape of `Arguments`.
pub struct ArgumentsV {
    pub game: Seq<ArgumentV>,
    pub jvm: Seq<ArgumentV>,
}

impl DeepView for Arguments {
    type V = ArgumentsV;

    open spec fn deep_view(&self) -> ArgumentsV {
        ArgumentsV { game: self.game.deep_view(), jvm: self.jvm.deep_view() }
    }
}

/// The keys an arguments object may carry.
pub open spec fn arguments_keys() -> Seq<Seq<char>> {
    seq!["game"@, "jvm"@]
}

/// An arguments object: the two required lists, no other keys.
pub open spec fn spec_decode_arguments(r: Raw) -> Result<ArgumentsV, DecodeError> {
    match r {
        Raw::Object(es) => match scan_keys(Seq::<Seq<char>>::empty(), es@, arguments_keys()) {
            Some(e) => Err(e),
            None => match lookup(es@, "game"@) {
                None => Err(DecodeError::MissingField),
                Some(Raw::List(gitems)) => match spec_decode_argument_items(gitems@) {
                    Err(e) => Err(e),
                    Ok(game) => match lookup(es@, "jvm"@) {
                        None => Err(DecodeError::MissingField),
                        Some(Raw::List(jitems)) => match spec_decode_argument_items(jitems@) {
                            Err(e) => Err(e),
                            Ok(jvm) => Ok(ArgumentsV { game, jvm }),
                        },
                        Some(_) => Err(DecodeError::TypeMismatch),
                    },
                },
                Some(_) => Err(DecodeError::TypeMismatch),
            },
        },
        _ => Err(DecodeError::TypeMismatch),
    }
}

/// The allowed keys of an arguments object, for the scanner.
fn arguments_allowed() -> (v: Vec<&'static str>)
    ensures
        v.deep_view() == arguments_keys(),
{
    let mut v: Vec<&'static str> = Vec::new();
    v.push("game");
    v.push("jvm");
    proof {
        assert(v.deep_view() =~= arguments_keys());
    }
    v
}

/// Decodes an arguments object, as `spec_decode_arguments`.
pub fn decode_arguments(r: &Raw) -> (res: Result<Arguments, DecodeError>)
    ensures
        res_view(res) == spec_decode_arguments(*r),
{
    match r {
        Raw::Object(es) => {
            let allowed = arguments_allowed();
            if let Some(e) = check_keys(es, &allowed) {
                return Err(e);
            }
            let game = match obj_get(es, "game") {
                None => return Err(DecodeError::MissingField),
                Some(v) => match v {
                    Raw::List(items) => match decode_argument_items(items) {
                        Ok(a) => a,
                        Err(e) => return Err(e),
                    },
                    _ => return Err(DecodeError::TypeMismatch),
                },
            };
            let jvm = match obj_get(es, "jvm") {
                None => return Err(DecodeError::MissingField),
                Some(v) => match v {
                    Raw::List(items) => match decode_argument_items(items) {
                        Ok(a) => a,
                        Err(e) => return Err(e),
                    },
                    _ => return Err(DecodeError::TypeMismatch),
                },
            };
            Ok(Arguments { game, jvm })
        },
        _ => Err(DecodeError::TypeMismatch),
    }
}

/// What the selector yields: for each entry in original order, its tokens
/// when its conditions admit the context, nothing when they do not.
pub open spec fn spec_select(entries: Seq<ArgumentV>, ctx: ContextV) -> Seq<Seq<char>>
    decreases entries.len(),
{
    if entries.len() == 0 {
        Seq::<Seq<char>>::empty()
    } else {
        spec_select(entries.drop_last(), ctx) + (if spec_evaluate(entries.last().rules, ctx) {
            entries.last().values
        } else {
            Seq::<Seq<char>>::empty()
        })
    }
}

/// Walks the entries in original order and keeps the tokens of those whose
/// conditions admit the context, as `spec_select`: no reordering, no
/// dropping inside an included entry.
#[verifier::loop_isolation(false)]
pub fn select(entries: &Vec<Argument>, ctx: &Context) -> (out: Vec<String>)
    ensures
        out.deep_view() == spec_select(entries.deep_view(), ctx.deep_view()),
{
    let ghost ev = entries.deep_view();
    let ghost cv = ctx.deep_view();
    let mut out: Vec<String> = Vec::new();
    proof {
        assert(ev.take(0) =~= Seq::<ArgumentV>::empty());
        assert(out.deep_view() =~= Seq::<Seq<char>>::empty());
    }
    let mut i: usize = 0;
    while i < entries.len()
        invariant
            0 <= i <= ev.len(),
            out.deep_view() == spec_select(ev.take(i as int), cv),
        decreases ev.len() - i,
    {
        proof {
            assert(ev.take(i as int + 1).drop_last() =~= ev.take(i as int));
            assert(ev.take(i as int + 1).last() == ev[i as int]);
            assert(ev[i as int] == entries@[i as int].deep_view());
        }
        let included = evaluate(&entries[i].rules, ctx);
        if included {
            let ghost base = out.deep_view();
            let ghost vals = ev[i as int].values;
            let vs = &entries[i].values;
            let mut j: usize = 0;
            proof {
                assert(vals.take(0) =~= Seq::<Seq<char>>::empty());
                assert(out.deep_view() =~= base + vals.take(0));
            }
            while j < vs.len()
                invariant
                    0 <= j <= vals.len(),
                    vals == ev[i as int].values,
                    vals.len() == vs@.len(),
                    out.deep_view() == base + vals.take(j as int),
                decreases vals.len() - j,
            {
                let ghost old_dv = out.deep_view();
                proof {
                    assert(vals[j as int] == vs@[j as int]@);
                }
                out.push(vs[j].clone());
                proof {
                    assert(out.deep_view() =~= old_dv.push(vals[j as int]));
                    assert(vals.take(j as int + 1) =~= vals.take(j as int).push(vals[j as int]));
                    assert(base + vals.take(j as int + 1) =~= (base + vals.take(j as int)).push(
                        vals[j as int],
                    ));
                }
                j += 1;
            }
            proof {
                assert(vals.take(j as int) =~= vals);
            }
        } else {
            proof {
                assert(out.deep_view() + Seq::<Seq<char>>::empty() =~= out.deep_view());
            }
        }
        i += 1;
    }
    proof {
        assert(ev.take(i as int) =~= ev);
    }
    out
}

/// Selection distributes over concatenation of entry lists.
pub proof fn lemma_select_append(a: Seq<ArgumentV>, b: Seq<ArgumentV>, ctx: ContextV)
    ensures
        spec_select(a + b, ctx) == spec_select(a, ctx) + spec_select(b, ctx),
    decreases b.len(),
{
    if b.len() == 0 {
        assert(a + b =~= a);
        assert(spec_select(a, ctx) + spec_select(b, ctx) =~= spec_select(a, ctx));
    } else {
        assert((a + b).drop_last() =~= a + b.drop_last());
        assert((a + b).last() == b.last());
        lemma_select_append(a, b.drop_last(), ctx);
        assert(spec_select(a, ctx) + spec_select(b, ctx) =~= spec_select(a, ctx) + (spec_select(
            b.drop_last(),
            ctx,
        ) + (if spec_evaluate(b.last().rules, ctx) {
            b.last().values
        } else {
            Seq::<Seq<char>>::empty()
        })));
    }
}

/// An entry whose conditions reject the context yields nothing.
pub proof fn lemma_select_excluded(e: ArgumentV, ctx: ContextV)
    requires
        !spec_evaluate(e.rules, ctx),
    ensures
        spec_select(seq![e], ctx) == Seq::<Seq<char>>::empty(),
{
    reveal_with_fuel(spec_select, 3);
    assert(seq![e].drop_last() =~= Seq::<ArgumentV>::empty());
    assert(seq![e].last() == e);
    assert(spec_select(seq![e], ctx) =~= Seq::<Seq<char>>::empty());
}

/// An entry whose conditions admit the context yields exactly its tokens.
pub proof fn lemma_select_included(e: ArgumentV, ctx: ContextV)
    requires
        spec_evaluate(e.rules, ctx),
    ensures
        spec_select(seq![e], ctx) == e.values,
{
    reveal_with_fuel(spec_select, 3);
    assert(seq![e].drop_last() =~= Seq::<ArgumentV>::empty());
    assert(seq![e].last() == e);
    assert(spec_select(seq![e], ctx) =~= e.values);
}

/// An excluded entry leaves no trace: the selection over the whole list is
/// the selection over the list without it, order preserved.
pub proof fn lemma_select_skips_excluded(
    pre: Seq<ArgumentV>,
    e: ArgumentV,
    post: Seq<ArgumentV>,
    ctx: ContextV,
)
    requires
        !spec_evaluate(e.rules, ctx),
    ensures
        spec_select(pre + seq![e] + post, ctx) == spec_select(pre, ctx) + spec_select(post, ctx),
{
    lemma_select_append(pre + seq![e], post, ctx);
    lemma_select_append(pre, seq![e], ctx);
    lemma_select_excluded(e, ctx);
    assert(spec_select(pre, ctx) + Seq::<Seq<char>>::empty() =~= spec_select(pre, ctx));
}

} // verus!

verus! {

/// A top-level artifact to fetch: checksum, size and source.
#[derive(Debug, Clone, PartialEq, Eq, Hash)]
pub struct Download {
    pub sha1: String,
    pub size: u64,
    pub url: String,
}

/// The mathematical shape of `Download`.
pub struct DownloadV {
    pub sha1: Seq<char>,
    pub size: u64,
    pub url: Seq<char>,
}

impl DeepView for Download {
    type V = DownloadV;

    open spec fn deep_view(&self) -> DownloadV {
        DownloadV { sha1: self.sha1@, size: self.size, url: self.url@ }
    }
}

/// The asset-index descriptor: its name, checksum, sizes and source.
#[derive(Debug, Clone, PartialEq, Eq, Hash)]
pub struct AssetIndex {
    pub id: String,
    pub sha1: String,
    pub size: u64,
    pub total_size: u64,
    pub url: String,
}

/// The mathematical shape of `AssetIndex`.
pub struct AssetIndexV {
    pub id: Seq<char>,
    pub sha1: Seq<char>,
    pub size: u64,
    pub total_size: u64,
    pub url: Seq<char>,
}

impl DeepView for AssetIndex {
    type V = AssetIndexV;

    open spec fn deep_view(&self) -> AssetIndexV {
        AssetIndexV {
            id: self.id@,
            sha1: self.sha1@,
            size: self.size,
            total_size: self.total_size,
            url: self.url@,
        }
    }
}

/// The top-level download set: the client jar, and optional server jar,
/// mapping files and windows server.
#[derive(Debug, Clone, PartialEq, Eq, Hash)]
pub struct Downloads {
    pub client: Download,
    pub client_mappings: Option<Download>,
    pub server: Option<Download>,
    pub server_mappings: Option<Download>,
    pub windows_server: Option<Download>,
}

/// The mathematical shape of `Downloads`.
pub struct DownloadsV {
    pub client: DownloadV,
    pub client_mappings: Option<DownloadV>,
    pub server: Option<DownloadV>,
    pub server_mappings: Option<DownloadV>,
    pub windows_server: Option<DownloadV>,
}

impl DeepView for Downloads {
    type V = DownloadsV;

    open spec fn deep_view(&self) -> DownloadsV {
        DownloadsV {
            client: self.client.deep_view(),
            client_mappings: self.client_mappings.deep_view(),
            server: self.server.deep_view(),
            server_mappings: self.server_mappings.deep_view(),
            windows_server: self.windows_server.deep_view(),
        }
    }
}

/// The Java requirement: runtime component name and major version.
#[derive(Debug, Clone, PartialEq, Eq, Hash)]
pub struct JavaVersion {
    pub component: String,
    pub major_version: u8,
}

/// The mathematical shape of `JavaVersion`.
pub struct JavaVersionV {
    pub component: Seq<char>,
    pub major_version: u8,
}

impl DeepView for JavaVersion {
    type V = JavaVersionV;

    open spec fn deep_view(&self) -> JavaVersionV {
        JavaVersionV { component: self.component@, major_version: self.major_version }
    }
}

/// The release classification of a version.
#[derive(Debug, Clone, Copy, PartialEq, Eq, Hash, Structural)]
pub enum VersionKind {
    Release,
    Snapshot,
    OldBeta,
    OldAlpha,
}

/// The decoded version descriptor: metadata, downloads, dependencies,
/// arguments and logging. Immutable once decoded.
#[derive(Debug, Clone, PartialEq, Eq, Hash)]
pub struct Version {
    pub arguments: Option<Arguments>,
    pub minecraft_arguments: Option<String>,
    pub asset_index: AssetIndex,
    pub assets: String,
    pub compliance_level: Option<u8>,
    pub downloads: Downloads,
    pub id: String,
    pub java_version: Option<JavaVersion>,
    pub libraries: Vec<Library>,
    pub logging: Option<Logging>,
    pub main_class: String,
    pub minimum_launcher_version: u8,
    pub release_time: String,
    pub time: String,
    pub kind: VersionKind,
}

/// The mathematical shape of `Version`.
pub struct VersionV {
    pub arguments: Option<ArgumentsV>,
    pub minecraft_arguments: Option<Seq<char>>,
    pub asset_index: AssetIndexV,
    pub assets: Seq<char>,
    pub compliance_level: Option<u8>,
    pub downloads: DownloadsV,
    pub id: Seq<char>,
    pub java_version: Option<JavaVersionV>,
    pub libraries: Seq<LibraryV>,
    pub logging: Option<LoggingV>,
    pub main_class: Seq<char>,
    pub minimum_launcher_version: u8,
    pub release_time: Seq<char>,
    pub time: Seq<char>,
    pub kind: VersionKind,
}

impl DeepView for Version {
    type V = VersionV;

    open spec fn deep_view(&self) -> VersionV {
        VersionV {
            arguments: self.arguments.deep_view(),
            minecraft_arguments: self.minecraft_arguments.deep_view(),
            asset_index: self.asset_index.deep_view(),
            assets: self.assets@,
            compliance_level: self.compliance_level,
            downloads: self.downloads.deep_view(),
            id: self.id@,
            java_version: self.java_version.deep_view(),
            libraries: self.libraries.deep_view(),
            logging: self.logging.deep_view(),
            main_class: self.main_class@,
            minimum_launcher_version: self.minimum_launcher_version,
            release_time: self.release_time@,
            time: self.time@,
            kind: self.kind,
        }
    }
}

/// The keys a top-level download object may carry.
pub open spec fn download_keys() -> Seq<Seq<char>> {
    seq!["sha1"@, "size"@, "url"@]
}

/// The keys an asset-index object may carry.
pub open spec fn asset_index_keys() -> Seq<Seq<char>> {
    seq!["id"@, "sha1"@, "size"@, "totalSize"@, "url"@]
}

/// The keys a download-set object may carry.
pub open spec fn downloads_keys() -> Seq<Seq<char>> {
    seq!["client"@, "client_mappings"@, "server"@, "server_mappings"@, "windows_server"@]
}

/// The keys a Java requirement object may carry.
pub open spec fn java_version_keys() -> Seq<Seq<char>> {
    seq!["component"@, "majorVersion"@]
}

/// The keys a version object may carry.
pub open spec fn version_keys() -> Seq<Seq<char>> {
    seq![
        "arguments"@,
        "minecraftArguments"@,
        "assetIndex"@,
        "assets"@,
        "complianceLevel"@,
        "downloads"@,
        "id"@,
        "javaVersion"@,
        "libraries"@,
        "logging"@,
        "mainClass"@,
        "minimumLauncherVersion"@,
        "releaseTime"@,
        "time"@,
        "type"@,
    ]
}

/// A download object: the three required fields, no other keys.
pub open spec fn spec_decode_download(r: Raw) -> Result<DownloadV, DecodeError> {
    match r {
        Raw::Object(es) => match scan_keys(Seq::<Seq<char>>::empty(), es@, download_keys()) {
            Some(e) => Err(e),
            None => match spec_field_string(es@, "sha1"@) {
                Err(e) => Err(e),
                Ok(sha1) => match spec_field_u64(es@, "size"@) {
                    Err(e) => Err(e),
                    Ok(size) => match spec_field_string(es@, "url"@) {
                        Err(e) => Err(e),
                        Ok(url) => Ok(DownloadV { sha1, size, url }),
                    },
                },
            },
        },
        _ => Err(DecodeError::TypeMismatch),
    }
}

/// An asset-index object: the five required fields, no other keys.
pub open spec fn spec_decode_asset_index(r: Raw) -> Result<AssetIndexV, DecodeError> {
    match r {
        Raw::Object(es) => match scan_keys(Seq::<Seq<char>>::empty(), es@, asset_index_keys()) {
            Some(e) => Err(e),
            None => match spec_field_string(es@, "id"@) {
                Err(e) => Err(e),
                Ok(id) => match spec_field_string(es@, "sha1"@) {
                    Err(e) => Err(e),
                    Ok(sha1) => match spec_field_u64(es@, "size"@) {
                        Err(e) => Err(e),
                        Ok(size) => match spec_field_u64(es@, "totalSize"@) {
                            Err(e) => Err(e),
                            Ok(total_size) => match spec_field_string(es@, "url"@) {
                                Err(e) => Err(e),
                                Ok(url) => Ok(AssetIndexV { id, sha1, size, total_size, url }),
                            },
                        },
                    },
                },
            },
        },
        _ => Err(DecodeError::TypeMismatch),
    }
}

/// An optional download field: absent or null means absent.
pub open spec fn spec_opt_download(es: Seq<(String, Raw)>, key: Seq<char>) -> Result<
    Option<DownloadV>,
    DecodeError,
> {
    match lookup(es, key) {
        None => Ok(None),
        Some(Raw::Null) => Ok(None),
        Some(v) => match spec_decode_download(v) {
            Ok(d) => Ok(Some(d)),
            Err(e) => Err(e),
        },
    }
}

/// A download-set object: a required client, the rest optional, no other
/// keys.
pub open spec fn spec_decode_downloads(r: Raw) -> Result<DownloadsV, DecodeError> {
    match r {
        Raw::Object(es) => match scan_keys(Seq::<Seq<char>>::empty(), es@, downloads_keys()) {
            Some(e) => Err(e),
            None => match lookup(es@, "client"@) {
                None => Err(DecodeError::MissingField),
                Some(craw) => match spec_decode_download(craw) {
                    Err(e) => Err(e),
                    Ok(client) => match spec_opt_download(es@, "client_mappings"@) {
                        Err(e) => Err(e),
                        Ok(client_mappings) => match spec_opt_download(es@, "server"@) {
                            Err(e) => Err(e),
                            Ok(server) => match spec_opt_download(es@, "server_mappings"@) {
                                Err(e) => Err(e),
                                Ok(server_mappings) => match spec_opt_download(
                                    es@,
                                    "windows_server"@,
                                ) {
                                    Err(e) => Err(e),
                                    Ok(windows_server) => Ok(
                                        DownloadsV {
                                            client,
                                            client_mappings,
                                            server,
                                            server_mappings,
                                            windows_server,
                                        },
                                    ),
                                },
                            },
                        },
                    },
                },
            },
        },
        _ => Err(DecodeError::TypeMismatch),
    }
}

/// A Java requirement object: both fields required, no other keys.
pub open spec fn spec_decode_java_version(r: Raw) -> Result<JavaVersionV, DecodeError> {
    match r {
        Raw::Object(es) => match scan_keys(Seq::<Seq<char>>::empty(), es@, java_version_keys()) {
            Some(e) => Err(e),
            None => match spec_field_string(es@, "component"@) {
                Err(e) => Err(e),
                Ok(component) => match spec_field_u8(es@, "majorVersion"@) {
                    Err(e) => Err(e),
                    Ok(major_version) => Ok(JavaVersionV { component, major_version }),
                },
            },
        },
        _ => Err(DecodeError::TypeMismatch),
    }
}

/// A release classification: one of the four known tags, nothing else.
pub open spec fn spec_decode_version_kind(r: Raw) -> Result<VersionKind, DecodeError> {
    match r {
        Raw::Str(s) => if s@ == "release"@ {
            Ok(VersionKind::Release)
        } else if s@ == "snapshot"@ {
            Ok(VersionKind::Snapshot)
        } else if s@ == "old_beta"@ {
            Ok(VersionKind::OldBeta)
        } else if s@ == "old_alpha"@ {
            Ok(VersionKind::OldAlpha)
        } else {
            Err(DecodeError::InvalidEnumValue)
        },
        _ => Err(DecodeError::TypeMismatch),
    }
}

/// The optional arguments of a version object.
pub open spec fn spec_opt_arguments(es: Seq<(String, Raw)>) -> Result<
    Option<ArgumentsV>,
    DecodeError,
> {
    match lookup(es, "arguments"@) {
        None => Ok(None),
        Some(Raw::Null) => Ok(None),
        Some(v) => match spec_decode_arguments(v) {
            Ok(a) => Ok(Some(a)),
            Err(e) => Err(e),
        },
    }
}

/// The optional Java requirement of a version object.
pub open spec fn spec_opt_java_version(es: Seq<(String, Raw)>) -> Result<
    Option<JavaVersionV>,
    DecodeError,
> {
    match lookup(es, "javaVersion"@) {
        None => Ok(None),
        Some(Raw::Null) => Ok(None),
        Some(v) => match spec_decode_java_version(v) {
            Ok(j) => Ok(Some(j)),
            Err(e) => Err(e),
        },
    }
}

/// The optional logging descriptor of a version object.
pub open spec fn spec_opt_logging(es: Seq<(String, Raw)>) -> Result<
    Option<LoggingV>,
    DecodeError,
> {
    match lookup(es, "logging"@) {
        None => Ok(None),
        Some(Raw::Null) => Ok(None),
        Some(v) => match spec_decode_logging(v) {
            Ok(l) => Ok(Some(l)),
            Err(e) => Err(e),
        },
    }
}

/// A version object: the full schema, strict. Required fields must be
/// present; optional fields default to absent; unknown keys reject.
pub open spec fn spec_decode_version(r: Raw) -> Result<VersionV, DecodeError> {
    match r {
        Raw::Object(es) => match scan_keys(Seq::<Seq<char>>::empty(), es@, version_keys()) {
            Some(e) => Err(e),
            None => match spec_opt_arguments(es@) {
                Err(e) => Err(e),
                Ok(arguments) => match spec_field_opt_string(es@, "minecraftArguments"@) {
                    Err(e) => Err(e),
                    Ok(minecraft_arguments) => match lookup(es@, "assetIndex"@) {
                        None => Err(DecodeError::MissingField),
                        Some(airaw) => match spec_decode_asset_index(airaw) {
                            Err(e) => Err(e),
                            Ok(asset_index) => match spec_field_string(es@, "assets"@) {
                                Err(e) => Err(e),
                                Ok(assets) => match spec_field_opt_u8(es@, "complianceLevel"@) {
                                    Err(e) => Err(e),
                                    Ok(compliance_level) => match lookup(es@, "downloads"@) {
                                        None => Err(DecodeError::MissingField),
                                        Some(draw) => match spec_decode_downloads(draw) {
                                            Err(e) => Err(e),
                                            Ok(downloads) => match spec_field_string(es@, "id"@) {
                                                Err(e) => Err(e),
                                                Ok(id) => match spec_opt_java_version(es@) {
                                                    Err(e) => Err(e),
                                                    Ok(java_version) => match lookup(
                                                        es@,
                                                        "libraries"@,
                                                    ) {
                                                        None => Err(DecodeError::MissingField),
                                                        Some(Raw::List(litems)) => match
                                                            spec_decode_libraries(litems@) {
                                                            Err(e) => Err(e),
                                                            Ok(libraries) => match spec_opt_logging(
                                                                es@,
                                                            ) {
                                                                Err(e) => Err(e),
                                                                Ok(logging) => match
                                                                    spec_field_string(
                                                                    es@,
                                                                    "mainClass"@,
                                                                ) {
                                                                    Err(e) => Err(e),
                                                                    Ok(main_class) => match
                                                                        spec_field_u8(
                                                                        es@,
                                                                        "minimumLauncherVersion"@,
                                                                    ) {
                                                                        Err(e) => Err(e),
                                                                        Ok(
                                                                            minimum_launcher_version,
                                                                        ) => match
                                                                            spec_field_string(
                                                                            es@,
                                                                            "releaseTime"@,
                                                                        ) {
                                                                            Err(e) => Err(e),
                                                                            Ok(release_time) =>
                                                                                match
                                                                                spec_field_string(
                                                                                es@,
                                                                                "time"@,
                                                                            ) {
                                                                                Err(e) => Err(e),
                                                                                Ok(time) => match
                                                                                    lookup(
                                                                                    es@,
                                                                                    "type"@,
                                                                                ) {
                                                                                    None => Err(
                                                                                        DecodeError::MissingField,
                                                                                    ),
                                                                                    Some(kraw) =>
                                                                                        match
                                                                                        spec_decode_version_kind(
                                                                                        kraw,
                                                                                    ) {
                                                                                        Err(e) =>
                                                                                            Err(e),
                                                                                        Ok(kind) =>
                                                                                            Ok(
                                                                                            VersionV {
                                                                                                arguments,
                                                                                                minecraft_arguments,
                                                                                                asset_index,
                                                                                                assets,
                                                                                                compliance_level,
                                                                                                downloads,
                                                                                                id,
                                                                                                java_version,
                                                                                                libraries,
                                                                                                logging,
                                                                                                main_class,
                                                                                                minimum_launcher_version,
                                                                                                release_time,
                                                                                                time,
                                                                                                kind,
                                                                                            },
                                                                                        ),
                                                                                    },
                                                                                },
                                                                            },
                                                                        },
                                                                    },
                                                                },
                                                            },
                                                        },
                                                        Some(_) => Err(DecodeError::TypeMismatch),
                                                    },
                                                },
                                            },
                                        },
                                    },
                                },
                            },
                        },
                    },
                },
            },
        },
        _ => Err(DecodeError::TypeMismatch),
    }
}

} // verus!

verus! {

/// The allowed keys of a download object, for the scanner.
fn download_allowed() -> (v: Vec<&'static str>)
    ensures
        v.deep_view() == download_keys(),
{
    let mut v: Vec<&'static str> = Vec::new();
    v.push("sha1");
    v.push("size");
    v.push("url");
    proof {
        assert(v.deep_view() =~= download_keys());
    }
    v
}

/// The allowed keys of an asset-index object, for the scanner.
fn asset_index_allowed() -> (v: Vec<&'static str>)
    ensures
        v.deep_view() == asset_index_keys(),
{
    let mut v: Vec<&'static str> = Vec::new();
    v.push("id");
    v.push("sha1");
    v.push("size");
    v.push("totalSize");
    v.push("url");
    proof {
        assert(v.deep_view() =~= asset_index_keys());
    }
    v
}

/// The allowed keys of a download-set object, for the scanner.
fn downloads_allowed() -> (v: Vec<&'static str>)
    ensures
        v.deep_view() == downloads_keys(),
{
    let mut v: Vec<&'static str> = Vec::new();
    v.push("client");
    v.push("client_mappings");
    v.push("server");
    v.push("server_mappings");
    v.push("windows_server");
    proof {
        assert(v.deep_view() =~= downloads_keys());
    }
    v
}

/// The allowed keys of a Java requirement object, for the scanner.
fn java_version_allowed() -> (v: Vec<&'static str>)
    ensures
        v.deep_view() == java_version_keys(),
{
    let mut v: Vec<&'static str> = Vec::new();
    v.push("component");
    v.push("majorVersion");
    proof {
        assert(v.deep_view() =~= java_version_keys());
    }
    v
}

/// The allowed keys of a version object, for the scanner.
fn version_allowed() -> (v: Vec<&'static str>)
    ensures
        v.deep_view() == version_keys(),
{
    let mut v: Vec<&'static str> = Vec::new();
    v.push("arguments");
    v.push("minecraftArguments");
    v.push("assetIndex");
    v.push("assets");
    v.push("complianceLevel");
    v.push("downloads");
    v.push("id");
    v.push("javaVersion");
    v.push("libraries");
    v.push("logging");
    v.push("mainClass");
    v.push("minimumLauncherVersion");
    v.push("releaseTime");
    v.push("time");
    v.push("type");
    proof {
        assert(v.deep_view() =~= version_keys());
    }
    v
}

/// Decodes a download object, as `spec_decode_download`.
pub fn decode_download(r: &Raw) -> (res: Result<Download, DecodeError>)
    ensures
        res_view(res) == spec_decode_download(*r),
{
    match r {
        Raw::Object(es) => {
            let allowed = download_allowed();
            if let Some(e) = check_keys(es, &allowed) {
                return Err(e);
            }
            let sha1 = match field_string(es, "sha1") {
                Ok(v) => v,
                Err(e) => return Err(e),
            };
            let size = match field_u64(es, "size") {
                Ok(v) => v,
                Err(e) => return Err(e),
            };
            let url = match field_string(es, "url") {
                Ok(v) => v,
                Err(e) => return Err(e),
            };
            Ok(Download { sha1, size, url })
        },
        _ => Err(DecodeError::TypeMismatch),
    }
}

/// Decodes an asset-index object, as `spec_decode_asset_index`.
pub fn decode_asset_index(r: &Raw) -> (res: Result<AssetIndex, DecodeError>)
    ensures
        res_view(res) == spec_decode_asset_index(*r),
{
    match r {
        Raw::Object(es) => {
            let allowed = asset_index_allowed();
            if let Some(e) = check_keys(es, &allowed) {
                return Err(e);
            }
            let id = match field_string(es, "id") {
                Ok(v) => v,
                Err(e) => return Err(e),
            };
            let sha1 = match field_string(es, "sha1") {
                Ok(v) => v,
                Err(e) => return Err(e),
            };
            let size = match field_u64(es, "size") {
                Ok(v) => v,
                Err(e) => return Err(e),
            };
            let total_size = match field_u64(es, "totalSize") {
                Ok(v) => v,
                Err(e) => return Err(e),
            };
            let url = match field_string(es, "url") {
                Ok(v) => v,
                Err(e) => return Err(e),
            };
            Ok(AssetIndex { id, sha1, size, total_size, url })
        },
        _ => Err(DecodeError::TypeMismatch),
    }
}

/// Reads an optional download field, as `spec_opt_download`.
fn field_opt_download(es: &Vec<(String, Raw)>, key: &str) -> (res: Result<
    Option<Download>,
    DecodeError,
>)
    ensures
        res_view(res) == spec_opt_download(es@, key@),
{
    match obj_get(es, key) {
        None => Ok(None),
        Some(v) => match v {
            Raw::Null => Ok(None),
            _ => match decode_download(v) {
                Ok(d) => Ok(Some(d)),
                Err(e) => Err(e),
            },
        },
    }
}

/// Decodes a download-set object, as `spec_decode_downloads`.
pub fn decode_downloads(r: &Raw) -> (res: Result<Downloads, DecodeError>)
    ensures
        res_view(res) == spec_decode_downloads(*r),
{
    match r {
        Raw::Object(es) => {
            let allowed = downloads_allowed();
            if let Some(e) = check_keys(es, &allowed) {
                return Err(e);
            }
            let client = match obj_get(es, "client") {
                None => return Err(DecodeError::MissingField),
                Some(v) => match decode_download(v) {
                    Ok(d) => d,
                    Err(e) => return Err(e),
                },
            };
            let client_mappings = match field_opt_download(es, "client_mappings") {
                Ok(v) => v,
                Err(e) => return Err(e),
            };
            let server = match field_opt_download(es, "server") {
                Ok(v) => v,
                Err(e) => return Err(e),
            };
            let server_mappings = match field_opt_download(es, "server_mappings") {
                Ok(v) => v,
                Err(e) => return Err(e),
            };
            let windows_server = match field_opt_download(es, "windows_server") {
                Ok(v) => v,
                Err(e) => return Err(e),
            };
            Ok(Downloads { client, client_mappings, server, server_mappings, windows_server })
        },
        _ => Err(DecodeError::TypeMismatch),
    }
}

/// Decodes a Java requirement object, as `spec_decode_java_version`.
pub fn decode_java_version(r: &Raw) -> (res: Result<JavaVersion, DecodeError>)
    ensures
        res_view(res) == spec_decode_java_version(*r),
{
    match r {
        Raw::Object(es) => {
            let allowed = java_version_allowed();
            if let Some(e) = check_keys(es, &allowed) {
                return Err(e);
            }
            let component = match field_string(es, "component") {
                Ok(v) => v,
                Err(e) => return Err(e),
            };
            let major_version = match field_u8(es, "majorVersion") {
                Ok(v) => v,
                Err(e) => return Err(e),
            };
            Ok(JavaVersion { component, major_version })
        },
        _ => Err(DecodeError::TypeMismatch),
    }
}

/// Decodes a release classification, as `spec_decode_version_kind`.
pub fn decode_version_kind(r: &Raw) -> (res: Result<VersionKind, DecodeError>)
    ensures
        res == spec_decode_version_kind(*r),
{
    match r {
        Raw::Str(s) => {
            if string_eq_str(s, "release") {
                Ok(VersionKind::Release)
            } else if string_eq_str(s, "snapshot") {
                Ok(VersionKind::Snapshot)
            } else if string_eq_str(s, "old_beta") {
                Ok(VersionKind::OldBeta)
            } else if string_eq_str(s, "old_alpha") {
                Ok(VersionKind::OldAlpha)
            } else {
                Err(DecodeError::InvalidEnumValue)
            }
        },
        _ => Err(DecodeError::TypeMismatch),
    }
}

/// Decodes a whole version object, as `spec_decode_version`: the
/// all-or-nothing strict decode of the manifest.
pub fn decode_version(r: &Raw) -> (res: Result<Version, DecodeError>)
    ensures
        res_view(res) == spec_decode_version(*r),
{
    match r {
        Raw::Object(es) => {
            let allowed = version_allowed();
            if let Some(e) = check_keys(es, &allowed) {
                return Err(e);
            }
            let arguments = match obj_get(es, "arguments") {
                None => None,
                Some(v) => match v {
                    Raw::Null => None,
                    _ => match decode_arguments(v) {
                        Ok(a) => Some(a),
                        Err(e) => return Err(e),
                    },
                },
            };
            let minecraft_arguments = match field_opt_string(es, "minecraftArguments") {
                Ok(v) => v,
                Err(e) => return Err(e),
            };
            let asset_index = match obj_get(es, "assetIndex") {
                None => return Err(DecodeError::MissingField),
                Some(v) => match decode_asset_index(v) {
                    Ok(a) => a,
                    Err(e) => return Err(e),
                },
            };
            let assets = match field_string(es, "assets") {
                Ok(v) => v,
                Err(e) => return Err(e),
            };
            let compliance_level = match field_opt_u8(es, "complianceLevel") {
                Ok(v) => v,
                Err(e) => return Err(e),
            };
            let downloads = match obj_get(es, "downloads") {
                None => return Err(DecodeError::MissingField),
                Some(v) => match decode_downloads(v) {
                    Ok(d) => d,
                    Err(e) => return Err(e),
                },
            };
            let id = match field_string(es, "id") {
                Ok(v) => v,
                Err(e) => return Err(e),
            };
            let java_version = match obj_get(es, "javaVersion") {
                None => None,
                Some(v) => match v {
                    Raw::Null => None,
                    _ => match decode_java_version(v) {
                        Ok(j) => Some(j),
                        Err(e) => return Err(e),
                    },
                },
            };
            let libraries = match obj_get(es, "libraries") {
                None => return Err(DecodeError::MissingField),
                Some(v) => match v {
                    Raw::List(items) => match decode_libraries(items) {
                        Ok(ls) => ls,
                        Err(e) => return Err(e),
                    },
                    _ => return Err(DecodeError::TypeMismatch),
                },
            };
            let logging = match obj_get(es, "logging") {
                None => None,
                Some(v) => match v {
                    Raw::Null => None,
                    _ => match decode_logging(v) {
                        Ok(l) => Some(l),
                        Err(e) => return Err(e),
                    },
                },
            };
            let main_class = match field_string(es, "mainClass") {
                Ok(v) => v,
                Err(e) => return Err(e),
            };
            let minimum_launcher_version = match field_u8(es, "minimumLauncherVersion") {
                Ok(v) => v,
                Err(e) => return Err(e),
            };
            let release_time = match field_string(es, "releaseTime") {
                Ok(v) => v,
                Err(e) => return Err(e),
            };
            let time = match field_string(es, "time") {
                Ok(v) => v,
                Err(e) => return Err(e),
            };
            let kind = match obj_get(es, "type") {
                None => return Err(DecodeError::MissingField),
                Some(v) => match decode_version_kind(v) {
                    Ok(k) => k,
                    Err(e) => return Err(e),
                },
            };
            Ok(
                Version {
                    arguments,
                    minecraft_arguments,
                    asset_index,
                    assets,
                    compliance_level,
                    downloads,
                    id,
                    java_version,
                    libraries,
                    logging,
                    main_class,
                    minimum_launcher_version,
                    release_time,
                    time,
                    kind,
                },
            )
        },
        _ => Err(DecodeError::TypeMismatch),
    }
}

} // verus!

verus! {

use crate::raw::{opt_string_raw, encode_string_items, lemma_scan_clean, lemma_lookup_found};
use crate::rule::{rules_wf, encode_rules};
use crate::library::{libraries_wf, encode_libraries};
use crate::logging::encode_logging;

/// An entry is fit for encoding when its conditions are.
pub open spec fn argument_wf(a: ArgumentV) -> bool {
    rules_wf(a.rules)
}

/// Every entry of the list is fit for encoding.
pub open spec fn argument_items_wf(s: Seq<ArgumentV>) -> bool {
    forall|i: int| 0 <= i < s.len() ==> argument_wf(#[trigger] s[i])
}

/// Both argument lists are fit for encoding.
pub open spec fn arguments_wf(a: ArgumentsV) -> bool {
    argument_items_wf(a.game) && argument_items_wf(a.jvm)
}

/// A manifest is fit for encoding when its arguments and dependencies are:
/// every mapping it carries has unrepeated keys.
pub open spec fn version_wf(v: VersionV) -> bool {
    &&& match v.arguments {
        Some(a) => arguments_wf(a),
        None => true,
    }
    &&& libraries_wf(v.libraries)
}

/// Encodes a download; decoding gives it back.
pub fn encode_download(d: &Download) -> (out: Raw)
    ensures
        spec_decode_download(out) == Ok::<DownloadV, DecodeError>(d.deep_view()),
{
    let mut es: Vec<(String, Raw)> = Vec::new();
    es.push(("sha1".to_owned(), Raw::Str(d.sha1.clone())));
    es.push(("size".to_owned(), Raw::Int(d.size)));
    es.push(("url".to_owned(), Raw::Str(d.url.clone())));
    proof {
        reveal_strlit("sha1");
        reveal_strlit("size");
        reveal_strlit("url");
        let esv = es@;
        assert(esv.len() == 3);
        assert(esv[0].0@ == "sha1"@);
        assert(esv[1].0@ == "size"@);
        assert(esv[2].0@ == "url"@);
        assert("sha1"@.len() == 4 && "size"@.len() == 4 && "url"@.len() == 3);
        assert("sha1"@[1] == 'h' && "size"@[1] == 'i');
        assert("sha1"@ != "size"@ && "sha1"@ != "url"@ && "size"@ != "url"@);
        assert forall|i: int| 0 <= i < esv.len() implies download_keys().contains(
            #[trigger] esv[i].0@,
        ) by {
            assert(download_keys()[i] == esv[i].0@);
        }
        assert forall|i: int, j: int| 0 <= i < j < esv.len() implies esv[i].0@ != esv[j].0@ by {
            assert(esv[0].0@ == "sha1"@ && esv[1].0@ == "size"@ && esv[2].0@ == "url"@);
        }
        lemma_scan_clean(Seq::<Seq<char>>::empty(), esv, download_keys());
        lemma_lookup_found(esv, "sha1"@, 0);
        lemma_lookup_found(esv, "size"@, 1);
        lemma_lookup_found(esv, "url"@, 2);
    }
    Raw::Object(es)
}

/// Encodes an asset-index descriptor; decoding gives it back.
pub fn encode_asset_index(a: &AssetIndex) -> (out: Raw)
    ensures
        spec_decode_asset_index(out) == Ok::<AssetIndexV, DecodeError>(a.deep_view()),
{
    let mut es: Vec<(String, Raw)> = Vec::new();
    es.push(("id".to_owned(), Raw::Str(a.id.clone())));
    es.push(("sha1".to_owned(), Raw::Str(a.sha1.clone())));
    es.push(("size".to_owned(), Raw::Int(a.size)));
    es.push(("totalSize".to_owned(), Raw::Int(a.total_size)));
    es.push(("url".to_owned(), Raw::Str(a.url.clone())));
    proof {
        reveal_strlit("id");
        reveal_strlit("sha1");
        reveal_strlit("size");
        reveal_strlit("totalSize");
        reveal_strlit("url");
        let esv = es@;
        assert(esv.len() == 5);
        assert(esv[0].0@ == "id"@);
        assert(esv[1].0@ == "sha1"@);
        assert(esv[2].0@ == "size"@);
        assert(esv[3].0@ == "totalSize"@);
        assert(esv[4].0@ == "url"@);
        assert("id"@.len() == 2 && "sha1"@.len() == 4 && "size"@.len() == 4 && "totalSize"@.len()
            == 9 && "url"@.len() == 3);
        assert("sha1"@[1] == 'h' && "size"@[1] == 'i');
        assert("id"@ != "sha1"@ && "id"@ != "size"@ && "id"@ != "totalSize"@ && "id"@ != "url"@);
        assert("sha1"@ != "size"@ && "sha1"@ != "totalSize"@ && "sha1"@ != "url"@);
        assert("size"@ != "totalSize"@ && "size"@ != "url"@ && "totalSize"@ != "url"@);
        assert forall|i: int| 0 <= i < esv.len() implies asset_index_keys().contains(
            #[trigger] esv[i].0@,
        ) by {
            assert(asset_index_keys()[i] == esv[i].0@);
        }
        assert forall|i: int, j: int| 0 <= i < j < esv.len() implies esv[i].0@ != esv[j].0@ by {
            assert(esv[0].0@ == "id"@ && esv[1].0@ == "sha1"@ && esv[2].0@ == "size"@ && esv[3].0@
                == "totalSize"@ && esv[4].0@ == "url"@);
        }
        lemma_scan_clean(Seq::<Seq<char>>::empty(), esv, asset_index_keys());
        lemma_lookup_found(esv, "id"@, 0);
        lemma_lookup_found(esv, "sha1"@, 1);
        lemma_lookup_found(esv, "size"@, 2);
        lemma_lookup_found(esv, "totalSize"@, 3);
        lemma_lookup_found(esv, "url"@, 4);
    }
    Raw::Object(es)
}

/// Encodes an optional download: present as its object, absent as null.
fn opt_download_raw(v: &Option<Download>) -> (r: Raw)
    ensures
        match *v {
            Some(d) => spec_decode_download(r) == Ok::<DownloadV, DecodeError>(d.deep_view()) && !(
            r is Null),
            None => r == Raw::Null,
        },
{
    match v {
        Some(d) => {
            let out = encode_download(d);
            proof {
                assert(!(out is Null));
            }
            out
        },
        None => Raw::Null,
    }
}

/// Encodes the download set; decoding gives it back.
pub fn encode_downloads(d: &Downloads) -> (out: Raw)
    ensures
        spec_decode_downloads(out) == Ok::<DownloadsV, DecodeError>(d.deep_view()),
{
    let mut es: Vec<(String, Raw)> = Vec::new();
    es.push(("client".to_owned(), encode_download(&d.client)));
    es.push(("client_mappings".to_owned(), opt_download_raw(&d.client_mappings)));
    es.push(("server".to_owned(), opt_download_raw(&d.server)));
    es.push(("server_mappings".to_owned(), opt_download_raw(&d.server_mappings)));
    es.push(("windows_server".to_owned(), opt_download_raw(&d.windows_server)));
    proof {
        reveal_strlit("client");
        reveal_strlit("client_mappings");
        reveal_strlit("server");
        reveal_strlit("server_mappings");
        reveal_strlit("windows_server");
        let esv = es@;
        assert(esv.len() == 5);
        assert(esv[0].0@ == "client"@);
        assert(esv[1].0@ == "client_mappings"@);
        assert(esv[2].0@ == "server"@);
        assert(esv[3].0@ == "server_mappings"@);
        assert(esv[4].0@ == "windows_server"@);
        assert("client"@.len() == 6 && "client_mappings"@.len() == 15 && "server"@.len() == 6
            && "server_mappings"@.len() == 15 && "windows_server"@.len() == 14);
        assert("client"@[0] == 'c' && "server"@[0] == 's');
        assert("client_mappings"@[0] == 'c' && "server_mappings"@[0] == 's');
        assert("client"@ != "client_mappings"@ && "client"@ != "server"@ && "client"@
            != "server_mappings"@ && "client"@ != "windows_server"@);
        assert("client_mappings"@ != "server"@ && "client_mappings"@ != "server_mappings"@
            && "client_mappings"@ != "windows_server"@);
        assert("server"@ != "server_mappings"@ && "server"@ != "windows_server"@);
        assert("server_mappings"@ != "windows_server"@);
        assert forall|i: int| 0 <= i < esv.len() implies downloads_keys().contains(
            #[trigger] esv[i].0@,
        ) by {
            assert(downloads_keys()[i] == esv[i].0@);
        }
        assert forall|i: int, j: int| 0 <= i < j < esv.len() implies esv[i].0@ != esv[j].0@ by {
            assert(esv[0].0@ == "client"@ && esv[1].0@ == "client_mappings"@ && esv[2].0@
                == "server"@ && esv[3].0@ == "server_mappings"@ && esv[4].0@ == "windows_server"@);
        }
        lemma_scan_clean(Seq::<Seq<char>>::empty(), esv, downloads_keys());
        lemma_lookup_found(esv, "client"@, 0);
        lemma_lookup_found(esv, "client_mappings"@, 1);
        lemma_lookup_found(esv, "server"@, 2);
        lemma_lookup_found(esv, "server_mappings"@, 3);
        lemma_lookup_found(esv, "windows_server"@, 4);
        match &d.client_mappings {
            Some(_) => {
                assert(spec_opt_download(esv, "client_mappings"@) == Ok::<
                    Option<DownloadV>,
                    DecodeError,
                >(d.client_mappings.deep_view()));
            },
            None => {
                assert(spec_opt_download(esv, "client_mappings"@) == Ok::<
                    Option<DownloadV>,
                    DecodeError,
                >(None));
            },
        }
        match &d.server {
            Some(_) => {
                assert(spec_opt_download(esv, "server"@) == Ok::<Option<DownloadV>, DecodeError>(
                    d.server.deep_view(),
                ));
            },
            None => {
                assert(spec_opt_download(esv, "server"@) == Ok::<Option<DownloadV>, DecodeError>(
                    None,
                ));
            },
        }
        match &d.server_mappings {
            Some(_) => {
                assert(spec_opt_download(esv, "server_mappings"@) == Ok::<
                    Option<DownloadV>,
                    DecodeError,
                >(d.server_mappings.deep_view()));
            },
            None => {
                assert(spec_opt_download(esv, "server_mappings"@) == Ok::<
                    Option<DownloadV>,
                    DecodeError,
                >(None));
            },
        }
        match &d.windows_server {
            Some(_) => {
                assert(spec_opt_download(esv, "windows_server"@) == Ok::<
                    Option<DownloadV>,
                    DecodeError,
                >(d.windows_server.deep_view()));
            },
            None => {
                assert(spec_opt_download(esv, "windows_server"@) == Ok::<
                    Option<DownloadV>,
                    DecodeError,
                >(None));
            },
        }
    }
    Raw::Object(es)
}

/// Encodes a Java requirement; decoding gives it back.
pub fn encode_java_version(j: &JavaVersion) -> (out: Raw)
    ensures
        spec_decode_java_version(out) == Ok::<JavaVersionV, DecodeError>(j.deep_view()),
{
    let mut es: Vec<(String, Raw)> = Vec::new();
    es.push(("component".to_owned(), Raw::Str(j.component.clone())));
    es.push(("majorVersion".to_owned(), Raw::Int(j.major_version as u64)));
    proof {
        reveal_strlit("component");
        reveal_strlit("majorVersion");
        let esv = es@;
        assert(esv.len() == 2);
        assert(esv[0].0@ == "component"@);
        assert(esv[1].0@ == "majorVersion"@);
        assert("component"@.len() == 9 && "majorVersion"@.len() == 12);
        assert("component"@ != "majorVersion"@);
        assert forall|i: int| 0 <= i < esv.len() implies java_version_keys().contains(
            #[trigger] esv[i].0@,
        ) by {
            assert(java_version_keys()[i] == esv[i].0@);
        }
        assert forall|i: int, j2: int| 0 <= i < j2 < esv.len() implies esv[i].0@ != esv[j2].0@ by {
            assert(esv[0].0@ == "component"@ && esv[1].0@ == "majorVersion"@);
        }
        lemma_scan_clean(Seq::<Seq<char>>::empty(), esv, java_version_keys());
        lemma_lookup_found(esv, "component"@, 0);
        lemma_lookup_found(esv, "majorVersion"@, 1);
    }
    Raw::Object(es)
}

/// Encodes a release classification as its wire tag; decoding gives it
/// back.
pub fn encode_version_kind(k: VersionKind) -> (out: Raw)
    ensures
        spec_decode_version_kind(out) == Ok::<VersionKind, DecodeError>(k),
{
    proof {
        reveal_strlit("release");
        reveal_strlit("snapshot");
        reveal_strlit("old_beta");
        reveal_strlit("old_alpha");
        assert("release"@.len() == 7 && "snapshot"@.len() == 8 && "old_beta"@.len() == 8
            && "old_alpha"@.len() == 9);
        assert("snapshot"@[0] == 's' && "old_beta"@[0] == 'o');
        assert("snapshot"@ != "old_beta"@);
    }
    match k {
        VersionKind::Release => {
            let s = "release".to_owned();
            proof {
                assert(s@ == "release"@);
            }
            Raw::Str(s)
        },
        VersionKind::Snapshot => {
            let s = "snapshot".to_owned();
            proof {
                assert(s@ == "snapshot"@);
            }
            Raw::Str(s)
        },
        VersionKind::OldBeta => {
            let s = "old_beta".to_owned();
            proof {
                assert(s@ == "old_beta"@);
            }
            Raw::Str(s)
        },
        VersionKind::OldAlpha => {
            let s = "old_alpha".to_owned();
            proof {
                assert(s@ == "old_alpha"@);
            }
            Raw::Str(s)
        },
    }
}

/// Encodes a conditional entry in its object form; decoding gives it back.
pub fn encode_argument(a: &Argument) -> (out: Raw)
    requires
        argument_wf(a.deep_view()),
    ensures
        spec_decode_argument(out) == Ok::<ArgumentV, DecodeError>(a.deep_view()),
{
    proof {
        assert(a.deep_view().rules == a.rules.deep_view());
    }
    let rules_raw = Raw::List(encode_rules(&a.rules));
    let values_raw = Raw::List(encode_string_items(&a.values));
    let mut es: Vec<(String, Raw)> = Vec::new();
    es.push(("rules".to_owned(), rules_raw));
    es.push(("value".to_owned(), values_raw));
    proof {
        reveal_strlit("rules");
        reveal_strlit("value");
        let esv = es@;
        assert(esv.len() == 2);
        assert(esv[0].0@ == "rules"@);
        assert(esv[1].0@ == "value"@);
        assert("rules"@.len() == 5 && "value"@.len() == 5);
        assert("rules"@[0] == 'r' && "value"@[0] == 'v');
        assert("rules"@ != "value"@);
        assert forall|i: int| 0 <= i < esv.len() implies argument_keys().contains(
            #[trigger] esv[i].0@,
        ) by {
            assert(argument_keys()[i] == esv[i].0@);
        }
        assert forall|i: int, j: int| 0 <= i < j < esv.len() implies esv[i].0@ != esv[j].0@ by {
            assert(esv[0].0@ == "rules"@ && esv[1].0@ == "value"@);
        }
        lemma_scan_clean(Seq::<Seq<char>>::empty(), esv, argument_keys());
        lemma_lookup_found(esv, "rules"@, 0);
        lemma_lookup_found(esv, "value"@, 1);
    }
    Raw::Object(es)
}

/// Encodes an ordered entry list; decoding gives it back in order.
#[verifier::loop_isolation(false)]
pub fn encode_argument_items(entries: &Vec<Argument>) -> (out: Vec<Raw>)
    requires
        argument_items_wf(entries.deep_view()),
    ensures
        spec_decode_argument_items(out@) == Ok::<Seq<ArgumentV>, DecodeError>(entries.deep_view()),
{
    let ghost ev = entries.deep_view();
    let mut out: Vec<Raw> = Vec::new();
    proof {
        assert(ev.take(0) =~= Seq::<ArgumentV>::empty());
        assert(spec_decode_argument_items(out@) == Ok::<Seq<ArgumentV>, DecodeError>(ev.take(0)));
    }
    let mut i: usize = 0;
    while i < entries.len()
        invariant
            0 <= i <= ev.len(),
            out@.len() == i,
            spec_decode_argument_items(out@) == Ok::<Seq<ArgumentV>, DecodeError>(
                ev.take(i as int),
            ),
        decreases ev.len() - i,
    {
        proof {
            assert(ev[i as int] == entries@[i as int].deep_view());
            assert(argument_wf(ev[i as int]));
        }
        let ghost old_out = out@;
        let item = encode_argument(&entries[i]);
        out.push(item);
        proof {
            assert(out@.drop_last() =~= old_out);
            assert(out@.last() == out@[i as int]);
            assert(ev.take(i as int + 1) =~= ev.take(i as int).push(ev[i as int]));
        }
        i += 1;
    }
    proof {
        assert(ev.take(i as int) =~= ev);
    }
    out
}

/// Encodes the two argument lists; decoding gives them back.
pub fn encode_arguments(a: &Arguments) -> (out: Raw)
    requires
        arguments_wf(a.deep_view()),
    ensures
        spec_decode_arguments(out) == Ok::<ArgumentsV, DecodeError>(a.deep_view()),
{
    proof {
        assert(a.deep_view().game == a.game.deep_view());
        assert(a.deep_view().jvm == a.jvm.deep_view());
    }
    let game_raw = Raw::List(encode_argument_items(&a.game));
    let jvm_raw = Raw::List(encode_argument_items(&a.jvm));
    let mut es: Vec<(String, Raw)> = Vec::new();
    es.push(("game".to_owned(), game_raw));
    es.push(("jvm".to_owned(), jvm_raw));
    proof {
        reveal_strlit("game");
        reveal_strlit("jvm");
        let esv = es@;
        assert(esv.len() == 2);
        assert(esv[0].0@ == "game"@);
        assert(esv[1].0@ == "jvm"@);
        assert("game"@.len() == 4 && "jvm"@.len() == 3);
        assert("game"@ != "jvm"@);
        assert forall|i: int| 0 <= i < esv.len() implies arguments_keys().contains(
            #[trigger] esv[i].0@,
        ) by {
            assert(arguments_keys()[i] == esv[i].0@);
        }
        assert forall|i: int, j: int| 0 <= i < j < esv.len() implies esv[i].0@ != esv[j].0@ by {
            assert(esv[0].0@ == "game"@ && esv[1].0@ == "jvm"@);
        }
        lemma_scan_clean(Seq::<Seq<char>>::empty(), esv, arguments_keys());
        lemma_lookup_found(esv, "game"@, 0);
        lemma_lookup_found(esv, "jvm"@, 1);
    }
    Raw::Object(es)
}

/// Encodes a whole manifest to its wire shape. Decoding what this returns
/// gives back exactly the manifest that went in: the round trip through
/// the wire format is lossless.
#[verifier::rlimit(60)]
pub fn encode_version(v: &Version) -> (out: Raw)
    requires
        version_wf(v.deep_view()),
    ensures
        spec_decode_version(out) == Ok::<VersionV, DecodeError>(v.deep_view()),
{
    let arguments_raw = match &v.arguments {
        Some(a) => {
            proof {
                assert(v.deep_view().arguments == Some(a.deep_view()));
            }
            encode_arguments(a)
        },
        None => Raw::Null,
    };
    let minecraft_arguments_raw = opt_string_raw(&v.minecraft_arguments);
    let asset_index_raw = encode_asset_index(&v.asset_index);
    let compliance_level_raw = match &v.compliance_level {
        Some(n) => Raw::Int(*n as u64),
        None => Raw::Null,
    };
    let downloads_raw = encode_downloads(&v.downloads);
    let java_version_raw = match &v.java_version {
        Some(j) => encode_java_version(j),
        None => Raw::Null,
    };
    proof {
        assert(v.deep_view().libraries == v.libraries.deep_view());
    }
    let libraries_raw = Raw::List(encode_libraries(&v.libraries));
    let logging_raw = match &v.logging {
        Some(l) => encode_logging(l),
        None => Raw::Null,
    };
    let kind_raw = encode_version_kind(v.kind);
    let mut es: Vec<(String, Raw)> = Vec::new();
    es.push(("arguments".to_owned(), arguments_raw));
    es.push(("minecraftArguments".to_owned(), minecraft_arguments_raw));
    es.push(("assetIndex".to_owned(), asset_index_raw));
    es.push(("assets".to_owned(), Raw::Str(v.assets.clone())));
    es.push(("complianceLevel".to_owned(), compliance_level_raw));
    es.push(("downloads".to_owned(), downloads_raw));
    es.push(("id".to_owned(), Raw::Str(v.id.clone())));
    es.push(("javaVersion".to_owned(), java_version_raw));
    es.push(("libraries".to_owned(), libraries_raw));
    es.push(("logging".to_owned(), logging_raw));
    es.push(("mainClass".to_owned(), Raw::Str(v.main_class.clone())));
    es.push(("minimumLauncherVersion".to_owned(), Raw::Int(v.minimum_launcher_version as u64)));
    es.push(("releaseTime".to_owned(), Raw::Str(v.release_time.clone())));
    es.push(("time".to_owned(), Raw::Str(v.time.clone())));
    es.push(("type".to_owned(), kind_raw));
    proof {
        reveal_strlit("arguments");
        reveal_strlit("minecraftArguments");
        reveal_strlit("assetIndex");
        reveal_strlit("assets");
        reveal_strlit("complianceLevel");
        reveal_strlit("downloads");
        reveal_strlit("id");
        reveal_strlit("javaVersion");
        reveal_strlit("libraries");
        reveal_strlit("logging");
        reveal_strlit("mainClass");
        reveal_strlit("minimumLauncherVersion");
        reveal_strlit("releaseTime");
        reveal_strlit("time");
        reveal_strlit("type");
        let esv = es@;
        assert(esv.len() == 15);
        assert(esv[0].0@ == "arguments"@);
        assert(esv[1].0@ == "minecraftArguments"@);
        assert(esv[2].0@ == "assetIndex"@);
        assert(esv[3].0@ == "assets"@);
        assert(esv[4].0@ == "complianceLevel"@);
        assert(esv[5].0@ == "downloads"@);
        assert(esv[6].0@ == "id"@);
        assert(esv[7].0@ == "javaVersion"@);
        assert(esv[8].0@ == "libraries"@);
        assert(esv[9].0@ == "logging"@);
        assert(esv[10].0@ == "mainClass"@);
        assert(esv[11].0@ == "minimumLauncherVersion"@);
        assert(esv[12].0@ == "releaseTime"@);
        assert(esv[13].0@ == "time"@);
        assert(esv[14].0@ == "type"@);
        assert("arguments"@.len() == 9 && "minecraftArguments"@.len() == 18 && "assetIndex"@.len()
            == 10 && "assets"@.len() == 6 && "complianceLevel"@.len() == 15);
        assert("downloads"@.len() == 9 && "id"@.len() == 2 && "javaVersion"@.len() == 11
            && "libraries"@.len() == 9 && "logging"@.len() == 7);
        assert("mainClass"@.len() == 9 && "minimumLauncherVersion"@.len() == 22
            && "releaseTime"@.len() == 11 && "time"@.len() == 4 && "type"@.len() == 4);
        assert("arguments"@[0] == 'a' && "downloads"@[0] == 'd' && "libraries"@[0] == 'l'
            && "mainClass"@[0] == 'm');
        assert("javaVersion"@[0] == 'j' && "releaseTime"@[0] == 'r');
        assert("time"@[1] == 'i' && "type"@[1] == 'y');
        assert(version_keys().len() == 15);
        assert forall|i: int| 0 <= i < esv.len() implies version_keys().contains(
            #[trigger] esv[i].0@,
        ) by {
            assert(version_keys()[i] == esv[i].0@);
        }
        assert forall|i: int, j: int| 0 <= i < j < esv.len() implies esv[i].0@ != esv[j].0@ by {
            assert(version_keys()[i] == esv[i].0@);
            assert(version_keys()[j] == esv[j].0@);
        }
        lemma_scan_clean(Seq::<Seq<char>>::empty(), esv, version_keys());
        lemma_lookup_found(esv, "arguments"@, 0);
        lemma_lookup_found(esv, "minecraftArguments"@, 1);
        lemma_lookup_found(esv, "assetIndex"@, 2);
        lemma_lookup_found(esv, "assets"@, 3);
        lemma_lookup_found(esv, "complianceLevel"@, 4);
        lemma_lookup_found(esv, "downloads"@, 5);
        lemma_lookup_found(esv, "id"@, 6);
        lemma_lookup_found(esv, "javaVersion"@, 7);
        lemma_lookup_found(esv, "libraries"@, 8);
        lemma_lookup_found(esv, "logging"@, 9);
        lemma_lookup_found(esv, "mainClass"@, 10);
        lemma_lookup_found(esv, "minimumLauncherVersion"@, 11);
        lemma_lookup_found(esv, "releaseTime"@, 12);
        lemma_lookup_found(esv, "time"@, 13);
        lemma_lookup_found(esv, "type"@, 14);
        match &v.arguments {
            Some(_) => {
                assert(!(esv[0].1 is Null));
                assert(spec_opt_arguments(esv) == Ok::<Option<ArgumentsV>, DecodeError>(
                    v.arguments.deep_view(),
                ));
            },
            None => {
                assert(spec_opt_arguments(esv) == Ok::<Option<ArgumentsV>, DecodeError>(None));
            },
        }
        match &v.minecraft_arguments {
            Some(_) => {
                assert(spec_field_opt_string(esv, "minecraftArguments"@) == Ok::<
                    Option<Seq<char>>,
                    DecodeError,
                >(v.minecraft_arguments.deep_view()));
            },
            None => {
                assert(spec_field_opt_string(esv, "minecraftArguments"@) == Ok::<
                    Option<Seq<char>>,
                    DecodeError,
                >(None));
            },
        }
        match &v.compliance_level {
            Some(_) => {
                assert(spec_field_opt_u8(esv, "complianceLevel"@) == Ok::<Option<u8>, DecodeError>(
                    v.compliance_level,
                ));
            },
            None => {
                assert(spec_field_opt_u8(esv, "complianceLevel"@) == Ok::<Option<u8>, DecodeError>(
                    None,
                ));
            },
        }
        match &v.java_version {
            Some(_) => {
                assert(!(esv[7].1 is Null));
                assert(spec_opt_java_version(esv) == Ok::<Option<JavaVersionV>, DecodeError>(
                    v.java_version.deep_view(),
                ));
            },
            None => {
                assert(spec_opt_java_version(esv) == Ok::<Option<JavaVersionV>, DecodeError>(None));
            },
        }
        match &v.logging {
            Some(_) => {
                assert(!(esv[9].1 is Null));
                assert(spec_opt_logging(esv) == Ok::<Option<LoggingV>, DecodeError>(
                    v.logging.deep_view(),
                ));
            },
            None => {
                assert(spec_opt_logging(esv) == Ok::<Option<LoggingV>, DecodeError>(None));
            },
        }
        assert(esv[8].1 is List);
        assert(spec_field_u8(esv, "minimumLauncherVersion"@) == Ok::<u8, DecodeError>(
            v.minimum_launcher_version,
        ));
    }
    Raw::Object(es)
}

} // verus!

verus! {

use crate::rule::rules_encodable;
use crate::library::libraries_encodable;

/// Decides whether an entry meets what its encoder requires, as
/// `argument_wf`.
pub fn argument_encodable(a: &Argument) -> (b: bool)
    ensures
        b == argument_wf(a.deep_view()),
{
    proof {
        assert(a.deep_view().rules == a.rules.deep_view());
    }
    rules_encodable(&a.rules)
}

/// Decides whether every entry of the list meets what its encoder
/// requires, as `argument_items_wf`.
#[verifier::loop_isolation(false)]
pub fn argument_items_encodable(entries: &Vec<Argument>) -> (b: bool)
    ensures
        b == argument_items_wf(entries.deep_view()),
{
    let ghost ev = entries.deep_view();
    let mut i: usize = 0;
    while i < entries.len()
        invariant
            0 <= i <= ev.len(),
            forall|k: int| 0 <= k < i ==> argument_wf(#[trigger] ev[k]),
        decreases ev.len() - i,
    {
        proof {
            assert(ev[i as int] == entries@[i as int].deep_view());
        }
        if !argument_encodable(&entries[i]) {
            proof {
                assert(!argument_wf(ev[i as int]));
            }
            return false;
        }
        i += 1;
    }
    true
}

/// Decides whether both argument lists meet what their encoder requires,
/// as `arguments_wf`.
pub fn arguments_encodable(a: &Arguments) -> (b: bool)
    ensures
        b == arguments_wf(a.deep_view()),
{
    proof {
        assert(a.deep_view().game == a.game.deep_view());
        assert(a.deep_view().jvm == a.jvm.deep_view());
    }
    let game_ok = argument_items_encodable(&a.game);
    let jvm_ok = argument_items_encodable(&a.jvm);
    game_ok && jvm_ok
}

/// Decides whether a manifest meets what `encode_version` requires, as
/// `version_wf`: every mapping it carries has unrepeated keys.
pub fn version_encodable(v: &Version) -> (b: bool)
    ensures
        b == version_wf(v.deep_view()),
{
    let args_ok = match &v.arguments {
        None => true,
        Some(a) => {
            proof {
                assert(v.deep_view().arguments == Some(a.deep_view()));
            }
            arguments_encodable(a)
        },
    };
    proof {
        assert(v.deep_view().libraries == v.libraries.deep_view());
    }
    let libs_ok = libraries_encodable(&v.libraries);
    args_ok && libs_ok
}

} // verus!
