use vstd::prelude::*;

use crate::error::DecodeError;
use crate::raw::{
    Raw, res_view, lookup, scan_keys, scan_dups, spec_field_opt_string, field_opt_string,
    check_keys, check_dups, string_eq_str, obj_get,
};

verus! {

/// What a matching condition decides: inclusion or exclusion.
#[derive(Debug, Clone, Copy, PartialEq, Eq, Hash, Structural)]
pub enum RuleAction {
    Allow,
    Deny,
}

/// Platform criteria of a condition: each present part must hold of the
/// context for the criteria to match. The version part is a pattern,
/// matched regex-style against the reported version string.
#[derive(Debug, Clone, PartialEq, Eq, Hash)]
pub struct OsCriteria {
    pub name: Option<String>,
    pub arch: Option<String>,
    pub version: Option<String>,
}

/// The mathematical shape of `OsCriteria`.
pub struct OsCriteriaV {
    pub name: Option<Seq<char>>,
    pub arch: Option<Seq<char>>,
    pub version: Option<Seq<char>>,
}

impl DeepView for OsCriteria {
    type V = OsCriteriaV;

    open spec fn deep_view(&self) -> OsCriteriaV {
        OsCriteriaV {
            name: self.name.deep_view(),
            arch: self.arch.deep_view(),
            version: self.version.deep_view(),
        }
    }
}

/// One condition: an action, gated on optional platform criteria and an
/// optional set of required feature states. A condition with neither
/// criterion always matches.
#[derive(Debug, Clone, PartialEq, Eq, Hash)]
pub struct Rule {
    pub action: RuleAction,
    pub os: Option<OsCriteria>,
    pub features: Option<Vec<(String, bool)>>,
}

/// The mathematical shape of `Rule`.
pub struct RuleV {
    pub action: RuleAction,
    pub os: Option<OsCriteriaV>,
    pub features: Option<Seq<(Seq<char>, bool)>>,
}

impl DeepView for Rule {
    type V = RuleV;

    open spec fn deep_view(&self) -> RuleV {
        RuleV {
            action: self.action,
            os: self.os.deep_view(),
            features: self.features.deep_view(),
        }
    }
}

/// The runtime state a condition is evaluated against: the platform, and
/// the set of enabled feature names. Built fresh per launch attempt and
/// never mutated by this library.
#[derive(Debug, Clone, PartialEq, Eq)]
pub struct Context {
    pub os_name: String,
    pub os_arch: String,
    pub os_version: String,
    pub features: Vec<String>,
}

/// The mathematical shape of `Context`.
pub struct ContextV {
    pub os_name: Seq<char>,
    pub os_arch: Seq<char>,
    pub os_version: Seq<char>,
    pub features: Seq<Seq<char>>,
}

impl DeepView for Context {
    type V = ContextV;

    open spec fn deep_view(&self) -> ContextV {
        ContextV {
            os_name: self.os_name@,
            os_arch: self.os_arch@,
            os_version: self.os_version@,
            features: self.features.deep_view(),
        }
    }
}

/// Whether a version pattern matches a reported version string.
pub uninterp spec fn version_matches(pattern: Seq<char>, text: Seq<char>) -> bool;

/// Relies on regex::Regex::new and regex::Regex::is_match: whether the
/// pattern compiles and matches the text is a function of the two strings
/// alone. A pattern that does not compile matches nothing.
#[verifier::external_body]
fn regex_is_match(pattern: &str, text: &str) -> (r: bool)
    ensures
        r == version_matches(pattern@, text@),
{
    match regex::Regex::new(pattern) {
        Ok(re) => re.is_match(text),
        Err(_) => false,
    }
}

/// Platform criteria match when every present part equals (or, for the
/// version, pattern-matches) the corresponding context field.
pub open spec fn spec_os_matches(os: OsCriteriaV, ctx: ContextV) -> bool {
    &&& match os.name {
        Some(n) => n == ctx.os_name,
        None => true,
    }
    &&& match os.arch {
        Some(a) => a == ctx.os_arch,
        None => true,
    }
    &&& match os.version {
        Some(p) => version_matches(p, ctx.os_version),
        None => true,
    }
}

/// Feature criteria match when every named feature's required state equals
/// its state in the context (a feature not enabled there is false).
pub open spec fn spec_features_match(fs: Seq<(Seq<char>, bool)>, ctx: ContextV) -> bool {
    forall|i: int| 0 <= i < fs.len() ==> (ctx.features.contains(#[trigger] fs[i].0) == fs[i].1)
}

/// A condition matches when each of its present criteria matches; one with
/// no criteria always matches.
pub open spec fn spec_rule_matches(r: RuleV, ctx: ContextV) -> bool {
    &&& match r.os {
        Some(o) => spec_os_matches(o, ctx),
        None => true,
    }
    &&& match r.features {
        Some(fs) => spec_features_match(fs, ctx),
        None => true,
    }
}

/// Walks the conditions in order, each matching one overwriting the
/// verdict with its action: the last match wins.
pub open spec fn fold_verdict(rules: Seq<RuleV>, ctx: ContextV, acc: bool) -> bool
    decreases rules.len(),
{
    if rules.len() == 0 {
        acc
    } else {
        fold_verdict(
            rules.skip(1),
            ctx,
            if spec_rule_matches(rules[0], ctx) {
                rules[0].action is Allow
            } else {
                acc
            },
        )
    }
}

/// The verdict of an ordered condition list: no conditions admits
/// unconditionally; otherwise the last matching condition decides, and
/// deny is the default when none matches.
pub open spec fn spec_evaluate(rules: Seq<RuleV>, ctx: ContextV) -> bool {
    if rules.len() == 0 {
        true
    } else {
        fold_verdict(rules, ctx, false)
    }
}

impl Context {
    /// Whether a feature of this name is enabled.
    pub fn has_feature(&self, name: &String) -> (r: bool)
        ensures
            r == self.deep_view().features.contains(name@),
    {
        let ghost fv = self.features.deep_view();
        let mut i: usize = 0;
        let mut found = false;
        while i < self.features.len()
            invariant
                0 <= i <= self.features@.len(),
                fv == self.features.deep_view(),
                fv.len() == self.features@.len(),
                found == exists|j: int| 0 <= j < i && fv[j] == name@,
            decreases self.features@.len() - i,
        {
            if self.features[i] == *name {
                proof {
                    assert(fv[i as int] == name@);
                }
                found = true;
            }
            i += 1;
        }
        found
    }
}

/// Whether the platform criteria match the context, as `spec_os_matches`.
fn os_matches(os: &OsCriteria, ctx: &Context) -> (r: bool)
    ensures
        r == spec_os_matches(os.deep_view(), ctx.deep_view()),
{
    let name_ok = match &os.name {
        Some(n) => *n == ctx.os_name,
        None => true,
    };
    let arch_ok = match &os.arch {
        Some(a) => *a == ctx.os_arch,
        None => true,
    };
    let version_ok = match &os.version {
        Some(p) => regex_is_match(p.as_str(), ctx.os_version.as_str()),
        None => true,
    };
    name_ok && arch_ok && version_ok
}

/// Whether the feature criteria match the context, as
/// `spec_features_match`.
fn features_match(fs: &Vec<(String, bool)>, ctx: &Context) -> (r: bool)
    ensures
        r == spec_features_match(fs.deep_view(), ctx.deep_view()),
{
    let ghost fsv = fs.deep_view();
    let mut i: usize = 0;
    let mut all = true;
    while i < fs.len()
        invariant
            0 <= i <= fs@.len(),
            fsv == fs.deep_view(),
            fsv.len() == fs@.len(),
            all == forall|j: int|
                0 <= j < i ==> (ctx.deep_view().features.contains(#[trigger] fsv[j].0) == fsv[j].1),
        decreases fs@.len() - i,
    {
        let state = ctx.has_feature(&fs[i].0);
        let cur_ok = state == fs[i].1;
        proof {
            assert(fsv[i as int] == (fs@[i as int].0@, fs@[i as int].1));
            assert((ctx.deep_view().features.contains(fsv[i as int].0) == fsv[i as int].1)
                == cur_ok);
        }
        if !cur_ok {
            all = false;
        }
        i += 1;
    }
    all
}

/// Whether the condition matches the context, as `spec_rule_matches`.
pub fn rule_matches(r: &Rule, ctx: &Context) -> (b: bool)
    ensures
        b == spec_rule_matches(r.deep_view(), ctx.deep_view()),
{
    let os_ok = match &r.os {
        Some(o) => os_matches(o, ctx),
        None => true,
    };
    let features_ok = match &r.features {
        Some(fs) => features_match(fs, ctx),
        None => true,
    };
    os_ok && features_ok
}

/// Decides whether an ordered condition list admits the context, as
/// `spec_evaluate`: true means include.
pub fn evaluate(rules: &Vec<Rule>, ctx: &Context) -> (b: bool)
    ensures
        b == spec_evaluate(rules.deep_view(), ctx.deep_view()),
{
    let ghost rv = rules.deep_view();
    let ghost cv = ctx.deep_view();
    if rules.len() == 0 {
        return true;
    }
    proof {
        assert(rv.skip(0) =~= rv);
    }
    let mut verdict = false;
    let mut i: usize = 0;
    while i < rules.len()
        invariant
            0 <= i <= rules@.len(),
            rv == rules.deep_view(),
            cv == ctx.deep_view(),
            rv.len() == rules@.len(),
            rv.len() > 0,
            fold_verdict(rv.skip(i as int), cv, verdict) == fold_verdict(rv, cv, false),
        decreases rules@.len() - i,
    {
        proof {
            assert(rv.skip(i as int)[0] == rv[i as int]);
            assert(rv[i as int] == rules@[i as int].deep_view());
            assert(rv.skip(i as int).skip(1) =~= rv.skip(i as int + 1));
        }
        if rule_matches(&rules[i], ctx) {
            verdict = rules[i].action == RuleAction::Allow;
        }
        i += 1;
    }
    proof {
        assert(rv.skip(i as int).len() == 0);
    }
    verdict
}

/// An empty condition list admits every context.
pub proof fn lemma_evaluate_empty(ctx: ContextV)
    ensures
        spec_evaluate(Seq::<RuleV>::empty(), ctx),
{
}

/// A walk over conditions none of which matches leaves the verdict alone.
proof fn lemma_fold_no_match(rules: Seq<RuleV>, ctx: ContextV, acc: bool)
    requires
        forall|i: int| 0 <= i < rules.len() ==> !spec_rule_matches(#[trigger] rules[i], ctx),
    ensures
        fold_verdict(rules, ctx, acc) == acc,
    decreases rules.len(),
{
    if rules.len() > 0 {
        assert forall|i: int| 0 <= i < rules.skip(1).len() implies !spec_rule_matches(
            #[trigger] rules.skip(1)[i],
            ctx,
        ) by {
            assert(rules.skip(1)[i] == rules[i + 1]);
        }
        lemma_fold_no_match(rules.skip(1), ctx, acc);
    }
}

/// With conditions present and none matching, the verdict is deny: the
/// default differs from the empty list's unconditional allow.
pub proof fn lemma_no_match_denies(rules: Seq<RuleV>, ctx: ContextV)
    requires
        rules.len() > 0,
        forall|i: int| 0 <= i < rules.len() ==> !spec_rule_matches(#[trigger] rules[i], ctx),
    ensures
        !spec_evaluate(rules, ctx),
{
    lemma_fold_no_match(rules, ctx, false);
}

/// A lone denying condition never admits, whether or not it matches.
pub proof fn lemma_single_deny(r: RuleV, ctx: ContextV)
    requires
        r.action is Deny,
    ensures
        !spec_evaluate(seq![r], ctx),
{
    reveal_with_fuel(fold_verdict, 3);
    assert(seq![r].skip(1) =~= Seq::<RuleV>::empty());
    assert(seq![r][0] == r);
}

/// A walk ending in a matching condition yields that condition's action.
proof fn lemma_fold_push_match(rules: Seq<RuleV>, r: RuleV, ctx: ContextV, acc: bool)
    requires
        spec_rule_matches(r, ctx),
    ensures
        fold_verdict(rules.push(r), ctx, acc) == (r.action is Allow),
    decreases rules.len(),
{
    reveal_with_fuel(fold_verdict, 3);
    if rules.len() == 0 {
        assert(rules.push(r)[0] == r);
        assert(rules.push(r).skip(1) =~= Seq::<RuleV>::empty());
    } else {
        assert(rules.push(r)[0] == rules[0]);
        assert(rules.push(r).skip(1) =~= rules.skip(1).push(r));
        lemma_fold_push_match(
            rules.skip(1),
            r,
            ctx,
            if spec_rule_matches(rules[0], ctx) {
                rules[0].action is Allow
            } else {
                acc
            },
        );
    }
}

/// The last matching condition decides, whatever stands before it.
pub proof fn lemma_last_match_wins(rules: Seq<RuleV>, r: RuleV, ctx: ContextV)
    requires
        spec_rule_matches(r, ctx),
    ensures
        spec_evaluate(rules.push(r), ctx) == (r.action is Allow),
{
    lemma_fold_push_match(rules, r, ctx, false);
}

/// A walk ending in a non-matching condition ends as it would without it.
proof fn lemma_fold_push_no_match(rules: Seq<RuleV>, r: RuleV, ctx: ContextV, acc: bool)
    requires
        !spec_rule_matches(r, ctx),
    ensures
        fold_verdict(rules.push(r), ctx, acc) == fold_verdict(rules, ctx, acc),
    decreases rules.len(),
{
    reveal_with_fuel(fold_verdict, 3);
    if rules.len() == 0 {
        assert(rules.push(r)[0] == r);
        assert(rules.push(r).skip(1) =~= Seq::<RuleV>::empty());
    } else {
        assert(rules.push(r)[0] == rules[0]);
        assert(rules.push(r).skip(1) =~= rules.skip(1).push(r));
        lemma_fold_push_no_match(
            rules.skip(1),
            r,
            ctx,
            if spec_rule_matches(rules[0], ctx) {
                rules[0].action is Allow
            } else {
                acc
            },
        );
    }
}

/// A trailing condition that does not match leaves the verdict of the
/// conditions before it.
pub proof fn lemma_no_match_keeps(rules: Seq<RuleV>, r: RuleV, ctx: ContextV)
    requires
        !spec_rule_matches(r, ctx),
        rules.len() > 0,
    ensures
        spec_evaluate(rules.push(r), ctx) == spec_evaluate(rules, ctx),
{
    lemma_fold_push_no_match(rules, r, ctx, false);
}

} // verus!

verus! {

/// The keys a condition object may carry.
pub open spec fn rule_keys() -> Seq<Seq<char>> {
    seq!["action"@, "os"@, "features"@]
}

/// The keys a platform-criteria object may carry.
pub open spec fn os_keys() -> Seq<Seq<char>> {
    seq!["name"@, "arch"@, "version"@]
}

/// An action field: the string allow or deny, nothing else.
pub open spec fn spec_decode_action(r: Raw) -> Result<RuleAction, DecodeError> {
    match r {
        Raw::Str(s) => if s@ == "allow"@ {
            Ok(RuleAction::Allow)
        } else if s@ == "deny"@ {
            Ok(RuleAction::Deny)
        } else {
            Err(DecodeError::InvalidEnumValue)
        },
        _ => Err(DecodeError::TypeMismatch),
    }
}

/// A platform-criteria object: the three optional parts, no other keys.
pub open spec fn spec_decode_os(r: Raw) -> Result<OsCriteriaV, DecodeError> {
    match r {
        Raw::Object(es) => match scan_keys(Seq::<Seq<char>>::empty(), es@, os_keys()) {
            Some(e) => Err(e),
            None => match spec_field_opt_string(es@, "name"@) {
                Ok(name) => match spec_field_opt_string(es@, "arch"@) {
                    Ok(arch) => match spec_field_opt_string(es@, "version"@) {
                        Ok(version) => Ok(OsCriteriaV { name, arch, version }),
                        Err(e) => Err(e),
                    },
                    Err(e) => Err(e),
                },
                Err(e) => Err(e),
            },
        },
        _ => Err(DecodeError::TypeMismatch),
    }
}

/// Feature entries in order: every value a boolean.
pub open spec fn spec_features_entries(es: Seq<(String, Raw)>) -> Result<
    Seq<(Seq<char>, bool)>,
    DecodeError,
>
    decreases es.len(),
{
    if es.len() == 0 {
        Ok(Seq::<(Seq<char>, bool)>::empty())
    } else {
        match spec_features_entries(es.drop_last()) {
            Ok(pre) => match es.last().1 {
                Raw::Bool(b) => Ok(pre.push((es.last().0@, b))),
                _ => Err(DecodeError::TypeMismatch),
            },
            Err(e) => Err(e),
        }
    }
}

/// A feature mapping: free keys, unrepeated, boolean values.
pub open spec fn spec_decode_features(r: Raw) -> Result<Seq<(Seq<char>, bool)>, DecodeError> {
    match r {
        Raw::Object(es) => match scan_dups(Seq::<Seq<char>>::empty(), es@) {
            Some(e) => Err(e),
            None => spec_features_entries(es@),
        },
        _ => Err(DecodeError::TypeMismatch),
    }
}

/// The optional platform criteria of a condition object.
pub open spec fn spec_opt_os(es: Seq<(String, Raw)>) -> Result<Option<OsCriteriaV>, DecodeError> {
    match lookup(es, "os"@) {
        None => Ok(None),
        Some(Raw::Null) => Ok(None),
        Some(v) => match spec_decode_os(v) {
            Ok(o) => Ok(Some(o)),
            Err(e) => Err(e),
        },
    }
}

/// The optional feature criteria of a condition object.
pub open spec fn spec_opt_features(es: Seq<(String, Raw)>) -> Result<
    Option<Seq<(Seq<char>, bool)>>,
    DecodeError,
> {
    match lookup(es, "features"@) {
        None => Ok(None),
        Some(Raw::Null) => Ok(None),
        Some(v) => match spec_decode_features(v) {
            Ok(fs) => Ok(Some(fs)),
            Err(e) => Err(e),
        },
    }
}

/// A condition object: a required action, optional platform criteria,
/// optional feature criteria, and no other keys.
pub open spec fn spec_decode_rule(r: Raw) -> Result<RuleV, DecodeError> {
    match r {
        Raw::Object(es) => match scan_keys(Seq::<Seq<char>>::empty(), es@, rule_keys()) {
            Some(e) => Err(e),
            None => match lookup(es@, "action"@) {
                None => Err(DecodeError::MissingField),
                Some(araw) => match spec_decode_action(araw) {
                    Err(e) => Err(e),
                    Ok(action) => match spec_opt_os(es@) {
                        Err(e) => Err(e),
                        Ok(os) => match spec_opt_features(es@) {
                            Err(e) => Err(e),
                            Ok(features) => Ok(RuleV { action, os, features }),
                        },
                    },
                },
            },
        },
        _ => Err(DecodeError::TypeMismatch),
    }
}

/// An ordered condition list, each element a condition object.
pub open spec fn spec_decode_rules(items: Seq<Raw>) -> Result<Seq<RuleV>, DecodeError>
    decreases items.len(),
{
    if items.len() == 0 {
        Ok(Seq::<RuleV>::empty())
    } else {
        match spec_decode_rules(items.drop_last()) {
            Ok(pre) => match spec_decode_rule(items.last()) {
                Ok(r) => Ok(pre.push(r)),
                Err(e) => Err(e),
            },
            Err(e) => Err(e),
        }
    }
}

/// A failed prefix fails the whole feature-entry walk, with its error.
proof fn lemma_features_entries_err(es: Seq<(String, Raw)>, k: int, e: DecodeError)
    requires
        0 <= k <= es.len(),
        spec_features_entries(es.take(k)) == Err::<Seq<(Seq<char>, bool)>, DecodeError>(e),
    ensures
        spec_features_entries(es) == Err::<Seq<(Seq<char>, bool)>, DecodeError>(e),
    decreases es.len() - k,
{
    if k == es.len() {
        assert(es.take(k) =~= es);
    } else {
        assert(es.take(k + 1).drop_last() =~= es.take(k));
        assert(es.take(k + 1).last() == es[k]);
        lemma_features_entries_err(es, k + 1, e);
    }
}

/// A failed prefix fails the whole condition-list walk, with its error.
proof fn lemma_rules_err(items: Seq<Raw>, k: int, e: DecodeError)
    requires
        0 <= k <= items.len(),
        spec_decode_rules(items.take(k)) == Err::<Seq<RuleV>, DecodeError>(e),
    ensures
        spec_decode_rules(items) == Err::<Seq<RuleV>, DecodeError>(e),
    decreases items.len() - k,
{
    if k == items.len() {
        assert(items.take(k) =~= items);
    } else {
        assert(items.take(k + 1).drop_last() =~= items.take(k));
        assert(items.take(k + 1).last() == items[k]);
        lemma_rules_err(items, k + 1, e);
    }
}

/// The allowed keys of a condition object, for the scanner.
fn rule_allowed() -> (v: Vec<&'static str>)
    ensures
        v.deep_view() == rule_keys(),
{
    let mut v: Vec<&'static str> = Vec::new();
    v.push("action");
    v.push("os");
    v.push("features");
    proof {
        assert(v.deep_view() =~= rule_keys());
    }
    v
}

/// The allowed keys of a platform-criteria object, for the scanner.
fn os_allowed() -> (v: Vec<&'static str>)
    ensures
        v.deep_view() == os_keys(),
{
    let mut v: Vec<&'static str> = Vec::new();
    v.push("name");
    v.push("arch");
    v.push("version");
    proof {
        assert(v.deep_view() =~= os_keys());
    }
    v
}

/// Decodes an action field, as `spec_decode_action`.
pub fn decode_action(r: &Raw) -> (res: Result<RuleAction, DecodeError>)
    ensures
        res == spec_decode_action(*r),
{
    match r {
        Raw::Str(s) => {
            if string_eq_str(s, "allow") {
                Ok(RuleAction::Allow)
            } else if string_eq_str(s, "deny") {
                Ok(RuleAction::Deny)
            } else {
                Err(DecodeError::InvalidEnumValue)
            }
        },
        _ => Err(DecodeError::TypeMismatch),
    }
}

/// Decodes a platform-criteria object, as `spec_decode_os`.
pub fn decode_os(r: &Raw) -> (res: Result<OsCriteria, DecodeError>)
    ensures
        res_view(res) == spec_decode_os(*r),
{
    match r {
        Raw::Object(es) => {
            let allowed = os_allowed();
            if let Some(e) = check_keys(es, &allowed) {
                return Err(e);
            }
            let name = match field_opt_string(es, "name") {
                Ok(v) => v,
                Err(e) => return Err(e),
            };
            let arch = match field_opt_string(es, "arch") {
                Ok(v) => v,
                Err(e) => return Err(e),
            };
            let version = match field_opt_string(es, "version") {
                Ok(v) => v,
                Err(e) => return Err(e),
            };
            Ok(OsCriteria { name, arch, version })
        },
        _ => Err(DecodeError::TypeMismatch),
    }
}

/// Decodes a feature mapping, as `spec_decode_features`.
#[verifier::loop_isolation(false)]
pub fn decode_features(r: &Raw) -> (res: Result<Vec<(String, bool)>, DecodeError>)
    ensures
        res_view(res) == spec_decode_features(*r),
{
    match r {
        Raw::Object(es) => {
            if let Some(e) = check_dups(es) {
                return Err(e);
            }
            let ghost esv = es@;
            let mut out: Vec<(String, bool)> = Vec::new();
            proof {
                assert(esv.take(0) =~= Seq::<(String, Raw)>::empty());
                assert(out.deep_view() =~= Seq::<(Seq<char>, bool)>::empty());
            }
            let mut i: usize = 0;
            while i < es.len()
                invariant
                    0 <= i <= esv.len(),
                    esv == es@,
                    spec_features_entries(esv.take(i as int)) == Ok::<_, DecodeError>(
                        out.deep_view(),
                    ),
                decreases esv.len() - i,
            {
                proof {
                    assert(esv.take(i as int + 1).drop_last() =~= esv.take(i as int));
                    assert(esv.take(i as int + 1).last() == esv[i as int]);
                }
                match &es[i].1 {
                    Raw::Bool(b) => {
                        let ghost old_dv = out.deep_view();
                        out.push((es[i].0.clone(), *b));
                        proof {
                            assert(out.deep_view() =~= old_dv.push((esv[i as int].0@, *b)));
                        }
                    },
                    _ => {
                        proof {
                            lemma_features_entries_err(esv, i as int + 1, DecodeError::TypeMismatch);
                        }
                        return Err(DecodeError::TypeMismatch);
                    },
                }
                i += 1;
            }
            proof {
                assert(esv.take(i as int) =~= esv);
            }
            Ok(out)
        },
        _ => Err(DecodeError::TypeMismatch),
    }
}

/// Decodes a condition object, as `spec_decode_rule`.
pub fn decode_rule(r: &Raw) -> (res: Result<Rule, DecodeError>)
    ensures
        res_view(res) == spec_decode_rule(*r),
{
    match r {
        Raw::Object(es) => {
            let allowed = rule_allowed();
            if let Some(e) = check_keys(es, &allowed) {
                return Err(e);
            }
            let action = match obj_get(es, "action") {
                Some(v) => match decode_action(v) {
                    Ok(a) => a,
                    Err(e) => return Err(e),
                },
                None => return Err(DecodeError::MissingField),
            };
            let os = match obj_get(es, "os") {
                None => None,
                Some(v) => match v {
                    Raw::Null => None,
                    _ => match decode_os(v) {
                        Ok(o) => Some(o),
                        Err(e) => return Err(e),
                    },
                },
            };
            let features = match obj_get(es, "features") {
                None => None,
                Some(v) => match v {
                    Raw::Null => None,
                    _ => match decode_features(v) {
                        Ok(fs) => Some(fs),
                        Err(e) => return Err(e),
                    },
                },
            };
            Ok(Rule { action, os, features })
        },
        _ => Err(DecodeError::TypeMismatch),
    }
}

/// Decodes an ordered condition list, as `spec_decode_rules`.
pub fn decode_rules(items: &Vec<Raw>) -> (res: Result<Vec<Rule>, DecodeError>)
    ensures
        res_view(res) == spec_decode_rules(items@),
{
    let ghost iv = items@;
    let mut out: Vec<Rule> = Vec::new();
    proof {
        assert(iv.take(0) =~= Seq::<Raw>::empty());
        assert(out.deep_view() =~= Seq::<RuleV>::empty());
    }
    let mut i: usize = 0;
    while i < items.len()
        invariant
            0 <= i <= iv.len(),
            iv == items@,
            spec_decode_rules(iv.take(i as int)) == Ok::<_, DecodeError>(out.deep_view()),
        decreases iv.len() - i,
    {
        proof {
            assert(iv.take(i as int + 1).drop_last() =~= iv.take(i as int));
            assert(iv.take(i as int + 1).last() == iv[i as int]);
        }
        match decode_rule(&items[i]) {
            Ok(rl) => {
                let ghost rv = rl.deep_view();
                let ghost old_dv = out.deep_view();
                out.push(rl);
                proof {
                    assert(out.deep_view() =~= old_dv.push(rv));
                }
            },
            Err(e) => {
                proof {
                    lemma_rules_err(iv, i as int + 1, e);
                }
                return Err(e);
            },
        }
        i += 1;
    }
    proof {
        assert(iv.take(i as int) =~= iv);
    }
    Ok(out)
}

} // verus!

verus! {

use crate::raw::{
    opt_string_raw, lemma_scan_clean, lemma_scan_dups_clean, lemma_lookup_found, keys_distinct,
    keys_unique,
};

/// Feature names are pairwise distinct.
pub open spec fn feature_keys_distinct(fs: Seq<(Seq<char>, bool)>) -> bool {
    keys_distinct(fs)
}

/// A condition is fit for encoding when its feature names are unrepeated.
pub open spec fn rule_wf(r: RuleV) -> bool {
    match r.features {
        Some(fs) => feature_keys_distinct(fs),
        None => true,
    }
}

/// Every condition of the list is fit for encoding.
pub open spec fn rules_wf(rs: Seq<RuleV>) -> bool {
    forall|i: int| 0 <= i < rs.len() ==> rule_wf(#[trigger] rs[i])
}

/// Encodes an action as its wire string; decoding gives it back.
pub fn encode_action(a: RuleAction) -> (out: Raw)
    ensures
        spec_decode_action(out) == Ok::<RuleAction, DecodeError>(a),
{
    proof {
        reveal_strlit("allow");
        reveal_strlit("deny");
        assert("allow"@.len() == 5);
        assert("deny"@.len() == 4);
        assert("allow"@ != "deny"@);
    }
    match a {
        RuleAction::Allow => {
            let s = "allow".to_owned();
            proof {
                assert(s@ == "allow"@);
            }
            Raw::Str(s)
        },
        RuleAction::Deny => {
            let s = "deny".to_owned();
            proof {
                assert(s@ == "deny"@);
            }
            Raw::Str(s)
        },
    }
}

/// Encodes platform criteria; decoding gives them back.
pub fn encode_os(o: &OsCriteria) -> (out: Raw)
    ensures
        spec_decode_os(out) == Ok::<OsCriteriaV, DecodeError>(o.deep_view()),
{
    let mut es: Vec<(String, Raw)> = Vec::new();
    es.push(("name".to_owned(), opt_string_raw(&o.name)));
    es.push(("arch".to_owned(), opt_string_raw(&o.arch)));
    es.push(("version".to_owned(), opt_string_raw(&o.version)));
    proof {
        reveal_strlit("name");
        reveal_strlit("arch");
        reveal_strlit("version");
        let esv = es@;
        assert(esv.len() == 3);
        assert(esv[0].0@ == "name"@);
        assert(esv[1].0@ == "arch"@);
        assert(esv[2].0@ == "version"@);
        assert("name"@.len() == 4 && "arch"@.len() == 4 && "version"@.len() == 7);
        assert("name"@[0] == 'n' && "arch"@[0] == 'a');
        assert("name"@ != "arch"@ && "name"@ != "version"@ && "arch"@ != "version"@);
        assert forall|i: int| 0 <= i < esv.len() implies os_keys().contains(
            #[trigger] esv[i].0@,
        ) by {
            assert(os_keys()[i] == esv[i].0@);
        }
        assert forall|i: int, j: int| 0 <= i < j < esv.len() implies esv[i].0@ != esv[j].0@ by {
            assert(esv[0].0@ == "name"@ && esv[1].0@ == "arch"@ && esv[2].0@ == "version"@);
        }
        lemma_scan_clean(Seq::<Seq<char>>::empty(), esv, os_keys());
        lemma_lookup_found(esv, "name"@, 0);
        lemma_lookup_found(esv, "arch"@, 1);
        lemma_lookup_found(esv, "version"@, 2);
        assert(spec_field_opt_string(esv, "name"@) == Ok::<Option<Seq<char>>, DecodeError>(
            o.name.deep_view(),
        ));
        assert(spec_field_opt_string(esv, "arch"@) == Ok::<Option<Seq<char>>, DecodeError>(
            o.arch.deep_view(),
        ));
        assert(spec_field_opt_string(esv, "version"@) == Ok::<Option<Seq<char>>, DecodeError>(
            o.version.deep_view(),
        ));
    }
    Raw::Object(es)
}

/// Encodes a feature mapping; decoding gives it back, order and all.
#[verifier::loop_isolation(false)]
pub fn encode_features(fs: &Vec<(String, bool)>) -> (out: Raw)
    requires
        feature_keys_distinct(fs.deep_view()),
    ensures
        spec_decode_features(out) == Ok::<Seq<(Seq<char>, bool)>, DecodeError>(fs.deep_view()),
{
    let ghost fsv = fs.deep_view();
    let mut es: Vec<(String, Raw)> = Vec::new();
    proof {
        assert(fsv.take(0) =~= Seq::<(Seq<char>, bool)>::empty());
        assert(spec_features_entries(es@) == Ok::<Seq<(Seq<char>, bool)>, DecodeError>(
            fsv.take(0),
        ));
    }
    let mut i: usize = 0;
    while i < fs.len()
        invariant
            0 <= i <= fsv.len(),
            es@.len() == i,
            spec_features_entries(es@) == Ok::<Seq<(Seq<char>, bool)>, DecodeError>(
                fsv.take(i as int),
            ),
            forall|k: int| 0 <= k < i ==> #[trigger] es@[k].0@ == fsv[k].0,
        decreases fsv.len() - i,
    {
        let ghost old_es = es@;
        proof {
            assert(fsv[i as int] == (fs@[i as int].0@, fs@[i as int].1));
        }
        es.push((fs[i].0.clone(), Raw::Bool(fs[i].1)));
        proof {
            assert(es@.drop_last() =~= old_es);
            assert(es@.last() == es@[i as int]);
            assert(fsv.take(i as int + 1) =~= fsv.take(i as int).push(fsv[i as int]));
        }
        i += 1;
    }
    proof {
        assert(fsv.take(i as int) =~= fsv);
        assert forall|a: int, b: int| 0 <= a < b < es@.len() implies es@[a].0@ != es@[b].0@ by {
            assert(es@[a].0@ == fsv[a].0);
            assert(es@[b].0@ == fsv[b].0);
        }
        lemma_scan_dups_clean(Seq::<Seq<char>>::empty(), es@);
    }
    Raw::Object(es)
}

/// Encodes a condition; decoding gives it back.
pub fn encode_rule(r: &Rule) -> (out: Raw)
    requires
        rule_wf(r.deep_view()),
    ensures
        spec_decode_rule(out) == Ok::<RuleV, DecodeError>(r.deep_view()),
{
    let action_raw = encode_action(r.action);
    let os_raw = match &r.os {
        Some(o) => encode_os(o),
        None => Raw::Null,
    };
    let features_raw = match &r.features {
        Some(fs) => {
            proof {
                assert(r.deep_view().features == Some(fs.deep_view()));
            }
            encode_features(fs)
        },
        None => Raw::Null,
    };
    let mut es: Vec<(String, Raw)> = Vec::new();
    es.push(("action".to_owned(), action_raw));
    es.push(("os".to_owned(), os_raw));
    es.push(("features".to_owned(), features_raw));
    proof {
        reveal_strlit("action");
        reveal_strlit("os");
        reveal_strlit("features");
        let esv = es@;
        assert(esv.len() == 3);
        assert(esv[0].0@ == "action"@);
        assert(esv[1].0@ == "os"@);
        assert(esv[2].0@ == "features"@);
        assert("action"@.len() == 6 && "os"@.len() == 2 && "features"@.len() == 8);
        assert("action"@ != "os"@ && "action"@ != "features"@ && "os"@ != "features"@);
        assert forall|i: int| 0 <= i < esv.len() implies rule_keys().contains(
            #[trigger] esv[i].0@,
        ) by {
            assert(rule_keys()[i] == esv[i].0@);
        }
        assert forall|i: int, j: int| 0 <= i < j < esv.len() implies esv[i].0@ != esv[j].0@ by {
            assert(esv[0].0@ == "action"@ && esv[1].0@ == "os"@ && esv[2].0@ == "features"@);
        }
        lemma_scan_clean(Seq::<Seq<char>>::empty(), esv, rule_keys());
        lemma_lookup_found(esv, "action"@, 0);
        lemma_lookup_found(esv, "os"@, 1);
        lemma_lookup_found(esv, "features"@, 2);
        match &r.os {
            Some(_) => {
                assert(!(esv[1].1 is Null));
                assert(spec_opt_os(esv) == Ok::<Option<OsCriteriaV>, DecodeError>(
                    r.os.deep_view(),
                ));
            },
            None => {
                assert(spec_opt_os(esv) == Ok::<Option<OsCriteriaV>, DecodeError>(None));
            },
        }
        match &r.features {
            Some(_) => {
                assert(!(esv[2].1 is Null));
                assert(spec_opt_features(esv) == Ok::<
                    Option<Seq<(Seq<char>, bool)>>,
                    DecodeError,
                >(r.features.deep_view()));
            },
            None => {
                assert(spec_opt_features(esv) == Ok::<Option<Seq<(Seq<char>, bool)>>, DecodeError>(
                    None,
                ));
            },
        }
    }
    Raw::Object(es)
}

/// Encodes an ordered condition list; decoding gives it back in order.
#[verifier::loop_isolation(false)]
pub fn encode_rules(rules: &Vec<Rule>) -> (out: Vec<Raw>)
    requires
        rules_wf(rules.deep_view()),
    ensures
        spec_decode_rules(out@) == Ok::<Seq<RuleV>, DecodeError>(rules.deep_view()),
{
    let ghost rv = rules.deep_view();
    let mut out: Vec<Raw> = Vec::new();
    proof {
        assert(rv.take(0) =~= Seq::<RuleV>::empty());
        assert(spec_decode_rules(out@) == Ok::<Seq<RuleV>, DecodeError>(rv.take(0)));
    }
    let mut i: usize = 0;
    while i < rules.len()
        invariant
            0 <= i <= rv.len(),
            out@.len() == i,
            spec_decode_rules(out@) == Ok::<Seq<RuleV>, DecodeError>(rv.take(i as int)),
        decreases rv.len() - i,
    {
        proof {
            assert(rv[i as int] == rules@[i as int].deep_view());
            assert(rule_wf(rv[i as int]));
        }
        let ghost old_out = out@;
        let item = encode_rule(&rules[i]);
        out.push(item);
        proof {
            assert(out@.drop_last() =~= old_out);
            assert(out@.last() == out@[i as int]);
            assert(rv.take(i as int + 1) =~= rv.take(i as int).push(rv[i as int]));
        }
        i += 1;
    }
    proof {
        assert(rv.take(i as int) =~= rv);
    }
    out
}

} // verus!

verus! {

/// Decides whether a condition meets what its encoder requires, as
/// `rule_wf`.
pub fn rule_encodable(r: &Rule) -> (b: bool)
    ensures
        b == rule_wf(r.deep_view()),
{
    match &r.features {
        None => true,
        Some(fs) => {
            proof {
                assert(r.deep_view().features == Some(fs.deep_view()));
            }
            keys_unique(fs)
        },
    }
}

/// Decides whether every condition of the list meets what its encoder
/// requires, as `rules_wf`.
#[verifier::loop_isolation(false)]
pub fn rules_encodable(rules: &Vec<Rule>) -> (b: bool)
    ensures
        b == rules_wf(rules.deep_view()),
{
    let ghost rv = rules.deep_view();
    let mut i: usize = 0;
    while i < rules.len()
        invariant
            0 <= i <= rv.len(),
            forall|k: int| 0 <= k < i ==> rule_wf(#[trigger] rv[k]),
        decreases rv.len() - i,
    {
        proof {
            assert(rv[i as int] == rules@[i as int].deep_view());
        }
        if !rule_encodable(&rules[i]) {
            proof {
                assert(!rule_wf(rv[i as int]));
            }
            return false;
        }
        i += 1;
    }
    true
}

} // verus!
