use vstd::prelude::*;

use crate::error::DecodeError;

verus! {

/// A raw structured value: the generic tree (as of a parsed JSON document)
/// that the strict decoder consumes. Numbers are unsigned 64-bit, wide
/// enough for multi-gigabyte size fields. Object entries keep the order in
/// which the document lists them, and may hold repeated keys: the decoder,
/// not the tree, rejects duplicates.
#[derive(Debug, PartialEq, Eq)]
pub enum Raw {
    Null,
    Bool(bool),
    Int(u64),
    Str(String),
    List(Vec<Raw>),
    Object(Vec<(String, Raw)>),
}

/// Lifts a decode result to the view level, leaving errors as they are.
pub open spec fn res_view<T: DeepView>(r: Result<T, DecodeError>) -> Result<T::V, DecodeError> {
    match r {
        Ok(v) => Ok(v.deep_view()),
        Err(e) => Err(e),
    }
}

/// The keys of an object's entries, in entry order.
pub open spec fn keys_of(es: Seq<(String, Raw)>) -> Seq<Seq<char>> {
    es.map_values(|p: (String, Raw)| p.0@)
}

/// The value under `key`, taking the first entry that carries it.
pub open spec fn lookup(es: Seq<(String, Raw)>, key: Seq<char>) -> Option<Raw>
    decreases es.len(),
{
    if es.len() == 0 {
        None
    } else if es[0].0@ == key {
        Some(es[0].1)
    } else {
        lookup(es.skip(1), key)
    }
}

/// The first schema fault among an object's entries, scanning left to
/// right: a key outside `allowed` is unknown; a key already seen (in
/// `seen`, or earlier in the scan) is a duplicate.
pub open spec fn scan_keys(
    seen: Seq<Seq<char>>,
    es: Seq<(String, Raw)>,
    allowed: Seq<Seq<char>>,
) -> Option<DecodeError>
    decreases es.len(),
{
    if es.len() == 0 {
        None
    } else if !allowed.contains(es[0].0@) {
        Some(DecodeError::UnknownField)
    } else if seen.contains(es[0].0@) {
        Some(DecodeError::DuplicateField)
    } else {
        scan_keys(seen.push(es[0].0@), es.skip(1), allowed)
    }
}

/// Like `scan_keys`, for an open mapping whose keys are free: only
/// repetition is a fault.
pub open spec fn scan_dups(seen: Seq<Seq<char>>, es: Seq<(String, Raw)>) -> Option<DecodeError>
    decreases es.len(),
{
    if es.len() == 0 {
        None
    } else if seen.contains(es[0].0@) {
        Some(DecodeError::DuplicateField)
    } else {
        scan_dups(seen.push(es[0].0@), es.skip(1))
    }
}

/// A required string field.
pub open spec fn spec_field_string(es: Seq<(String, Raw)>, key: Seq<char>) -> Result<
    Seq<char>,
    DecodeError,
> {
    match lookup(es, key) {
        Some(Raw::Str(s)) => Ok(s@),
        Some(_) => Err(DecodeError::TypeMismatch),
        None => Err(DecodeError::MissingField),
    }
}

/// A required unsigned 64-bit field.
pub open spec fn spec_field_u64(es: Seq<(String, Raw)>, key: Seq<char>) -> Result<
    u64,
    DecodeError,
> {
    match lookup(es, key) {
        Some(Raw::Int(n)) => Ok(n),
        Some(_) => Err(DecodeError::TypeMismatch),
        None => Err(DecodeError::MissingField),
    }
}

/// A required unsigned 8-bit field; a wider number is a shape fault.
pub open spec fn spec_field_u8(es: Seq<(String, Raw)>, key: Seq<char>) -> Result<
    u8,
    DecodeError,
> {
    match lookup(es, key) {
        Some(Raw::Int(n)) => if n <= 255 {
            Ok(n as u8)
        } else {
            Err(DecodeError::TypeMismatch)
        },
        Some(_) => Err(DecodeError::TypeMismatch),
        None => Err(DecodeError::MissingField),
    }
}

/// An optional string field: absent or null means absent.
pub open spec fn spec_field_opt_string(es: Seq<(String, Raw)>, key: Seq<char>) -> Result<
    Option<Seq<char>>,
    DecodeError,
> {
    match lookup(es, key) {
        Some(Raw::Str(s)) => Ok(Some(s@)),
        Some(Raw::Null) => Ok(None),
        Some(_) => Err(DecodeError::TypeMismatch),
        None => Ok(None),
    }
}

/// An optional unsigned 8-bit field: absent or null means absent.
pub open spec fn spec_field_opt_u8(es: Seq<(String, Raw)>, key: Seq<char>) -> Result<
    Option<u8>,
    DecodeError,
> {
    match lookup(es, key) {
        Some(Raw::Int(n)) => if n <= 255 {
            Ok(Some(n as u8))
        } else {
            Err(DecodeError::TypeMismatch)
        },
        Some(Raw::Null) => Ok(None),
        Some(_) => Err(DecodeError::TypeMismatch),
        None => Ok(None),
    }
}

/// String equality between a stored key and a literal.
pub fn string_eq_str(a: &String, b: &str) -> (r: bool)
    ensures
        r == (a@ == b@),
{
    *a == b.to_owned()
}

/// Finds the first entry under `key`, as `lookup` does.
pub fn obj_get<'a>(es: &'a Vec<(String, Raw)>, key: &str) -> (r: Option<&'a Raw>)
    ensures
        match r {
            Some(v) => lookup(es@, key@) == Some(*v),
            None => lookup(es@, key@) is None,
        },
{
    let ghost esv = es@;
    proof {
        assert(esv.skip(0) =~= esv);
    }
    let mut i: usize = 0;
    while i < es.len()
        invariant
            0 <= i <= esv.len(),
            esv == es@,
            lookup(esv.skip(i as int), key@) == lookup(esv, key@),
        decreases esv.len() - i,
    {
        proof {
            assert(esv.skip(i as int)[0] == esv[i as int]);
            assert(esv.skip(i as int).skip(1) =~= esv.skip(i as int + 1));
        }
        if string_eq_str(&es[i].0, key) {
            return Some(&es[i].1);
        }
        i += 1;
    }
    proof {
        assert(esv.skip(i as int).len() == 0);
    }
    None
}

/// Scans an object's entries against an allowed key set, reporting the
/// first unknown or repeated key as `scan_keys` does.
pub fn check_keys(es: &Vec<(String, Raw)>, allowed: &Vec<&str>) -> (r: Option<DecodeError>)
    ensures
        r == scan_keys(Seq::<Seq<char>>::empty(), es@, allowed.deep_view()),
{
    let ghost esv = es@;
    let ghost av = allowed.deep_view();
    proof {
        assert(esv.skip(0) =~= esv);
        assert(keys_of(esv.take(0)) =~= Seq::<Seq<char>>::empty());
    }
    let mut i: usize = 0;
    while i < es.len()
        invariant
            0 <= i <= esv.len(),
            esv == es@,
            av == allowed.deep_view(),
            av.len() == allowed@.len(),
            scan_keys(keys_of(esv.take(i as int)), esv.skip(i as int), av) == scan_keys(
                Seq::<Seq<char>>::empty(),
                esv,
                av,
            ),
        decreases esv.len() - i,
    {
        let ghost seen = keys_of(esv.take(i as int));
        proof {
            assert(esv.skip(i as int)[0] == esv[i as int]);
            assert(seen.len() == i as int);
        }
        // is the key among the allowed names?
        let mut j: usize = 0;
        let mut known = false;
        while j < allowed.len()
            invariant
                0 <= j <= allowed@.len(),
                av == allowed.deep_view(),
                av.len() == allowed@.len(),
                i < esv.len(),
                esv == es@,
                known == exists|t: int| 0 <= t < j && av[t] == esv[i as int].0@,
            decreases allowed@.len() - j,
        {
            if string_eq_str(&es[i].0, allowed[j]) {
                proof {
                    assert(av[j as int] == esv[i as int].0@);
                }
                known = true;
            }
            j += 1;
        }
        if !known {
            proof {
                assert(!av.contains(esv[i as int].0@));
            }
            return Some(DecodeError::UnknownField);
        }
        proof {
            assert(av.contains(esv[i as int].0@));
        }
        // has the key been seen among the earlier entries?
        let mut t: usize = 0;
        let mut dup = false;
        while t < i
            invariant
                0 <= t <= i,
                i < esv.len(),
                esv == es@,
                dup == exists|u: int| 0 <= u < t && esv[u].0@ == esv[i as int].0@,
            decreases i - t,
        {
            if string_eq_str(&es[t].0, &es[i].0) {
                proof {
                    assert(esv[t as int].0@ == esv[i as int].0@);
                }
                dup = true;
            }
            t += 1;
        }
        if dup {
            proof {
                let u = choose|u: int| 0 <= u < i && esv[u].0@ == esv[i as int].0@;
                assert(seen[u] == esv[u].0@);
                assert(seen.contains(esv[i as int].0@));
            }
            return Some(DecodeError::DuplicateField);
        }
        proof {
            assert forall|u: int| 0 <= u < seen.len() implies seen[u] != esv[i as int].0@ by {
                assert(seen[u] == esv[u].0@);
            }
            assert(!seen.contains(esv[i as int].0@));
            assert(keys_of(esv.take(i as int + 1)) =~= seen.push(esv[i as int].0@));
            assert(esv.skip(i as int).skip(1) =~= esv.skip(i as int + 1));
        }
        i += 1;
    }
    proof {
        assert(esv.skip(i as int).len() == 0);
    }
    None
}

/// Scans an open mapping's entries, reporting the first repeated key as
/// `scan_dups` does.
pub fn check_dups(es: &Vec<(String, Raw)>) -> (r: Option<DecodeError>)
    ensures
        r == scan_dups(Seq::<Seq<char>>::empty(), es@),
{
    let ghost esv = es@;
    proof {
        assert(esv.skip(0) =~= esv);
        assert(keys_of(esv.take(0)) =~= Seq::<Seq<char>>::empty());
    }
    let mut i: usize = 0;
    while i < es.len()
        invariant
            0 <= i <= esv.len(),
            esv == es@,
            scan_dups(keys_of(esv.take(i as int)), esv.skip(i as int)) == scan_dups(
                Seq::<Seq<char>>::empty(),
                esv,
            ),
        decreases esv.len() - i,
    {
        let ghost seen = keys_of(esv.take(i as int));
        proof {
            assert(esv.skip(i as int)[0] == esv[i as int]);
            assert(seen.len() == i as int);
        }
        let mut t: usize = 0;
        let mut dup = false;
        while t < i
            invariant
                0 <= t <= i,
                i < esv.len(),
                esv == es@,
                dup == exists|u: int| 0 <= u < t && esv[u].0@ == esv[i as int].0@,
            decreases i - t,
        {
            if string_eq_str(&es[t].0, &es[i].0) {
                proof {
                    assert(esv[t as int].0@ == esv[i as int].0@);
                }
                dup = true;
            }
            t += 1;
        }
        if dup {
            proof {
                let u = choose|u: int| 0 <= u < i && esv[u].0@ == esv[i as int].0@;
                assert(seen[u] == esv[u].0@);
                assert(seen.contains(esv[i as int].0@));
            }
            return Some(DecodeError::DuplicateField);
        }
        proof {
            assert forall|u: int| 0 <= u < seen.len() implies seen[u] != esv[i as int].0@ by {
                assert(seen[u] == esv[u].0@);
            }
            assert(!seen.contains(esv[i as int].0@));
            assert(keys_of(esv.take(i as int + 1)) =~= seen.push(esv[i as int].0@));
            assert(esv.skip(i as int).skip(1) =~= esv.skip(i as int + 1));
        }
        i += 1;
    }
    proof {
        assert(esv.skip(i as int).len() == 0);
    }
    None
}

/// A required string field, as `spec_field_string` reads it.
pub fn field_string(es: &Vec<(String, Raw)>, key: &str) -> (r: Result<String, DecodeError>)
    ensures
        res_view(r) == spec_field_string(es@, key@),
{
    match obj_get(es, key) {
        Some(v) => match v {
            Raw::Str(s) => Ok(s.clone()),
            _ => Err(DecodeError::TypeMismatch),
        },
        None => Err(DecodeError::MissingField),
    }
}

/// A required unsigned 64-bit field, as `spec_field_u64` reads it.
pub fn field_u64(es: &Vec<(String, Raw)>, key: &str) -> (r: Result<u64, DecodeError>)
    ensures
        r == spec_field_u64(es@, key@),
{
    match obj_get(es, key) {
        Some(v) => match v {
            Raw::Int(n) => Ok(*n),
            _ => Err(DecodeError::TypeMismatch),
        },
        None => Err(DecodeError::MissingField),
    }
}

/// A required unsigned 8-bit field, as `spec_field_u8` reads it.
pub fn field_u8(es: &Vec<(String, Raw)>, key: &str) -> (r: Result<u8, DecodeError>)
    ensures
        r == spec_field_u8(es@, key@),
{
    match obj_get(es, key) {
        Some(v) => match v {
            Raw::Int(n) => if *n <= 255 {
                Ok(*n as u8)
            } else {
                Err(DecodeError::TypeMismatch)
            },
            _ => Err(DecodeError::TypeMismatch),
        },
        None => Err(DecodeError::MissingField),
    }
}

/// An optional string field, as `spec_field_opt_string` reads it.
pub fn field_opt_string(es: &Vec<(String, Raw)>, key: &str) -> (r: Result<
    Option<String>,
    DecodeError,
>)
    ensures
        res_view(r) == spec_field_opt_string(es@, key@),
{
    match obj_get(es, key) {
        Some(v) => match v {
            Raw::Str(s) => Ok(Some(s.clone())),
            Raw::Null => Ok(None),
            _ => Err(DecodeError::TypeMismatch),
        },
        None => Ok(None),
    }
}

/// An optional unsigned 8-bit field, as `spec_field_opt_u8` reads it.
pub fn field_opt_u8(es: &Vec<(String, Raw)>, key: &str) -> (r: Result<Option<u8>, DecodeError>)
    ensures
        r == spec_field_opt_u8(es@, key@),
{
    match obj_get(es, key) {
        Some(v) => match v {
            Raw::Int(n) => if *n <= 255 {
                Ok(Some(*n as u8))
            } else {
                Err(DecodeError::TypeMismatch)
            },
            Raw::Null => Ok(None),
            _ => Err(DecodeError::TypeMismatch),
        },
        None => Ok(None),
    }
}

/// Encodes an optional string: present as a string, absent as null.
pub fn opt_string_raw(v: &Option<String>) -> (r: Raw)
    ensures
        match *v {
            Some(s) => r matches Raw::Str(t) && t@ == s@,
            None => r == Raw::Null,
        },
{
    match v {
        Some(s) => Raw::Str(s.clone()),
        None => Raw::Null,
    }
}

/// `lookup` finds the one entry that carries `key`.
pub proof fn lemma_lookup_found(es: Seq<(String, Raw)>, key: Seq<char>, i: int)
    requires
        0 <= i < es.len(),
        es[i].0@ == key,
        forall|j: int| 0 <= j < i ==> es[j].0@ != key,
    ensures
        lookup(es, key) == Some(es[i].1),
    decreases i,
{
    if i > 0 {
        assert forall|j: int| 0 <= j < i - 1 implies es.skip(1)[j].0@ != key by {
            assert(es.skip(1)[j] == es[j + 1]);
        }
        assert(es.skip(1)[i - 1] == es[i]);
        lemma_lookup_found(es.skip(1), key, i - 1);
    }
}

/// A scan passes over entries whose keys are allowed, pairwise distinct,
/// and disjoint from what was already seen.
pub proof fn lemma_scan_clean(seen: Seq<Seq<char>>, es: Seq<(String, Raw)>, allowed: Seq<Seq<char>>)
    requires
        forall|i: int| 0 <= i < es.len() ==> allowed.contains(#[trigger] es[i].0@),
        forall|i: int, j: int| 0 <= i < j < es.len() ==> es[i].0@ != es[j].0@,
        forall|i: int| 0 <= i < es.len() ==> !seen.contains(#[trigger] es[i].0@),
    ensures
        scan_keys(seen, es, allowed) is None,
    decreases es.len(),
{
    if es.len() > 0 {
        let seen2 = seen.push(es[0].0@);
        assert forall|i: int| 0 <= i < es.skip(1).len() implies allowed.contains(
            #[trigger] es.skip(1)[i].0@,
        ) by {
            assert(es.skip(1)[i] == es[i + 1]);
        }
        assert forall|i: int, j: int| 0 <= i < j < es.skip(1).len() implies es.skip(1)[i].0@
            != es.skip(1)[j].0@ by {
            assert(es.skip(1)[i] == es[i + 1]);
            assert(es.skip(1)[j] == es[j + 1]);
        }
        assert forall|i: int| 0 <= i < es.skip(1).len() implies !seen2.contains(
            #[trigger] es.skip(1)[i].0@,
        ) by {
            assert(es.skip(1)[i] == es[i + 1]);
            if seen2.contains(es[i + 1].0@) {
                let t = choose|t: int| 0 <= t < seen2.len() && seen2[t] == es[i + 1].0@;
                if t < seen.len() {
                    assert(seen.contains(es[i + 1].0@));
                } else {
                    assert(seen2[t] == es[0].0@);
                }
            }
        }
        lemma_scan_clean(seen2, es.skip(1), allowed);
    }
}

/// A duplicate scan passes over entries whose keys are pairwise distinct
/// and disjoint from what was already seen.
pub proof fn lemma_scan_dups_clean(seen: Seq<Seq<char>>, es: Seq<(String, Raw)>)
    requires
        forall|i: int, j: int| 0 <= i < j < es.len() ==> es[i].0@ != es[j].0@,
        forall|i: int| 0 <= i < es.len() ==> !seen.contains(#[trigger] es[i].0@),
    ensures
        scan_dups(seen, es) is None,
    decreases es.len(),
{
    if es.len() > 0 {
        let seen2 = seen.push(es[0].0@);
        assert forall|i: int, j: int| 0 <= i < j < es.skip(1).len() implies es.skip(1)[i].0@
            != es.skip(1)[j].0@ by {
            assert(es.skip(1)[i] == es[i + 1]);
            assert(es.skip(1)[j] == es[j + 1]);
        }
        assert forall|i: int| 0 <= i < es.skip(1).len() implies !seen2.contains(
            #[trigger] es.skip(1)[i].0@,
        ) by {
            assert(es.skip(1)[i] == es[i + 1]);
            if seen2.contains(es[i + 1].0@) {
                let t = choose|t: int| 0 <= t < seen2.len() && seen2[t] == es[i + 1].0@;
                if t < seen.len() {
                    assert(seen.contains(es[i + 1].0@));
                } else {
                    assert(seen2[t] == es[0].0@);
                }
            }
        }
        lemma_scan_dups_clean(seen2, es.skip(1));
    }
}

} // verus!

verus! {

/// Mapping keys are pairwise distinct.
pub open spec fn keys_distinct<T>(es: Seq<(Seq<char>, T)>) -> bool {
    forall|i: int, j: int| 0 <= i < j < es.len() ==> es[i].0 != es[j].0
}

/// List elements in order, each a string.
pub open spec fn spec_string_items(items: Seq<Raw>) -> Result<Seq<Seq<char>>, DecodeError>
    decreases items.len(),
{
    if items.len() == 0 {
        Ok(Seq::<Seq<char>>::empty())
    } else {
        match spec_string_items(items.drop_last()) {
            Ok(pre) => match items.last() {
                Raw::Str(s) => Ok(pre.push(s@)),
                _ => Err(DecodeError::TypeMismatch),
            },
            Err(e) => Err(e),
        }
    }
}

/// A failed prefix fails the whole string-list walk, with its error.
pub proof fn lemma_string_items_err(items: Seq<Raw>, k: int, e: DecodeError)
    requires
        0 <= k <= items.len(),
        spec_string_items(items.take(k)) == Err::<Seq<Seq<char>>, DecodeError>(e),
    ensures
        spec_string_items(items) == Err::<Seq<Seq<char>>, DecodeError>(e),
    decreases items.len() - k,
{
    if k == items.len() {
        assert(items.take(k) =~= items);
    } else {
        assert(items.take(k + 1).drop_last() =~= items.take(k));
        assert(items.take(k + 1).last() == items[k]);
        lemma_string_items_err(items, k + 1, e);
    }
}

/// Decodes a list of strings, as `spec_string_items`.
#[verifier::loop_isolation(false)]
pub fn decode_string_items(items: &Vec<Raw>) -> (res: Result<Vec<String>, DecodeError>)
    ensures
        res_view(res) == spec_string_items(items@),
{
    let ghost iv = items@;
    let mut out: Vec<String> = Vec::new();
    proof {
        assert(iv.take(0) =~= Seq::<Raw>::empty());
        assert(out.deep_view() =~= Seq::<Seq<char>>::empty());
    }
    let mut i: usize = 0;
    while i < items.len()
        invariant
            0 <= i <= iv.len(),
            spec_string_items(iv.take(i as int)) == Ok::<_, DecodeError>(out.deep_view()),
        decreases iv.len() - i,
    {
        proof {
            assert(iv.take(i as int + 1).drop_last() =~= iv.take(i as int));
            assert(iv.take(i as int + 1).last() == iv[i as int]);
        }
        match &items[i] {
            Raw::Str(s) => {
                let ghost old_dv = out.deep_view();
                out.push(s.clone());
                proof {
                    assert(out.deep_view() =~= old_dv.push(iv[i as int]->Str_0@));
                }
            },
            _ => {
                proof {
                    lemma_string_items_err(iv, i as int + 1, DecodeError::TypeMismatch);
                }
                return Err(DecodeError::TypeMismatch);
            },
        }
        i += 1;
    }
    proof {
        assert(iv.take(i as int) =~= iv);
    }
    Ok(out)
}

/// Encodes a list of strings; decoding gives it back in order.
#[verifier::loop_isolation(false)]
pub fn encode_string_items(v: &Vec<String>) -> (out: Vec<Raw>)
    ensures
        spec_string_items(out@) == Ok::<Seq<Seq<char>>, DecodeError>(v.deep_view()),
{
    let ghost vv = v.deep_view();
    let mut out: Vec<Raw> = Vec::new();
    proof {
        assert(vv.take(0) =~= Seq::<Seq<char>>::empty());
        assert(spec_string_items(out@) == Ok::<Seq<Seq<char>>, DecodeError>(vv.take(0)));
    }
    let mut i: usize = 0;
    while i < v.len()
        invariant
            0 <= i <= vv.len(),
            out@.len() == i,
            spec_string_items(out@) == Ok::<Seq<Seq<char>>, DecodeError>(vv.take(i as int)),
        decreases vv.len() - i,
    {
        let ghost old_out = out@;
        proof {
            assert(vv[i as int] == v@[i as int]@);
        }
        out.push(Raw::Str(v[i].clone()));
        proof {
            assert(out@.drop_last() =~= old_out);
            assert(out@.last() == out@[i as int]);
            assert(vv.take(i as int + 1) =~= vv.take(i as int).push(vv[i as int]));
        }
        i += 1;
    }
    proof {
        assert(vv.take(i as int) =~= vv);
    }
    out
}

} // verus!

verus! {

/// Decides whether a mapping's keys are pairwise distinct, as
/// `keys_distinct` says of its view: the executable test for what the
/// encoders require of mappings.
#[verifier::loop_isolation(false)]
pub fn keys_unique<T: DeepView>(pairs: &Vec<(String, T)>) -> (b: bool)
    ensures
        b == keys_distinct(pairs.deep_view()),
{
    let ghost pv = pairs.deep_view();
    proof {
        assert(pv.len() == pairs@.len());
        assert forall|k: int| 0 <= k < pv.len() implies #[trigger] pv[k].0 == pairs@[k].0@ by {
            assert(pv[k] == pairs@[k].deep_view());
        }
    }
    let mut i: usize = 0;
    while i < pairs.len()
        invariant
            0 <= i <= pairs@.len(),
            forall|a: int, b2: int| 0 <= a < b2 < i ==> #[trigger] pv[a].0 != #[trigger] pv[b2].0,
        decreases pairs@.len() - i,
    {
        let mut j: usize = 0;
        while j < i
            invariant
                0 <= j <= i,
                i < pairs@.len(),
                forall|a: int| 0 <= a < j ==> #[trigger] pv[a].0 != pv[i as int].0,
            decreases i - j,
        {
            if string_eq_str(&pairs[j].0, pairs[i].0.as_str()) {
                proof {
                    assert(pv[j as int].0 == pv[i as int].0);
                    assert(!keys_distinct(pv));
                }
                return false;
            }
            j += 1;
        }
        i += 1;
    }
    proof {
        assert(keys_distinct(pv));
    }
    true
}

} // verus!
