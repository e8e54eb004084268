//! Validation and resolution of a requested version against the discovered
//! set.
//!
//! A request is first normalized to carry the leading `v`, then its shape is
//! checked against the exact pattern `v<digits>.<digits>.<digits>`, and only a
//! well-shaped request is looked up in the discovered set. The literal
//! request `latest` takes its own path, with no shape or membership check:
//! it resolves to the maximum of the freshly discovered set under the
//! version order.

use vstd::prelude::*;
use core::cmp::Ordering;
use crate::error::VersionError;
use crate::version::{
    all_comparable, all_digits, chars_of, comparable, dot_pos, find_dot, is_digit, is_digit_char,
    node_version_compare_fn, parse_version_triple, version_le, lemma_version_cmp_flip,
    lemma_version_cmp_transitive,
};

verus! {

/// Whether `s` has exactly the shape `v<major>.<minor>.<patch>`: a leading
/// `v`, then three non-empty runs of digits separated by single dots, and
/// nothing else.
pub open spec fn valid_version_id(s: Seq<char>) -> bool {
    let q1 = dot_pos(s, 1);
    let q2 = dot_pos(s, q1 + 1);
    &&& s.len() > 0
    &&& s[0] == 'v'
    &&& 1 < q1 < s.len()
    &&& q1 + 1 < q2 < s.len()
    &&& q2 + 1 < s.len()
    &&& all_digits(s.subrange(1, q1))
    &&& all_digits(s.subrange(q1 + 1, q2))
    &&& all_digits(s.subrange(q2 + 1, s.len() as int))
}

/// Whether every character of `v[from..to]` is a decimal digit.
fn all_digits_range(v: &Vec<char>, from: usize, to: usize) -> (r: bool)
    requires
        from <= to <= v.len(),
    ensures
        r == all_digits(v@.subrange(from as int, to as int)),
{
    let mut i = from;
    while i < to
        invariant
            from <= i <= to <= v.len(),
            forall|j: int| from <= j < i ==> is_digit_char(#[trigger] v@[j]),
        decreases to - i,
    {
        if !is_digit(v[i]) {
            proof {
                assert(v@.subrange(from as int, to as int)[i - from] == v@[i as int]);
            }
            return false;
        }
        i += 1;
    }
    proof {
        assert forall|j: int| 0 <= j < to - from implies is_digit_char(
            #[trigger] v@.subrange(from as int, to as int)[j],
        ) by {
            assert(v@.subrange(from as int, to as int)[j] == v@[j + from]);
        }
    }
    true
}

/// Decides whether `s` has exactly the shape `v<major>.<minor>.<patch>`.
pub fn is_valid_version_id(s: &str) -> (r: bool)
    ensures
        r == valid_version_id(s@),
{
    let v = chars_of(s);
    if v.len() == 0 {
        return false;
    }
    if v[0] != 'v' {
        return false;
    }
    let q1 = find_dot(&v, 1);
    if q1 == 1 || q1 == v.len() {
        return false;
    }
    let q2 = find_dot(&v, q1 + 1);
    if q2 == q1 + 1 || q2 == v.len() {
        return false;
    }
    if q2 + 1 == v.len() {
        return false;
    }
    if !all_digits_range(&v, 1, q1) {
        return false;
    }
    if !all_digits_range(&v, q1 + 1, q2) {
        return false;
    }
    all_digits_range(&v, q2 + 1, v.len())
}

/// The request coerced to carry the leading `v`: unchanged when it already
/// begins with `v`, prefixed with `v` otherwise.
pub open spec fn normalized_request(s: Seq<char>) -> Seq<char> {
    if s.len() > 0 && s[0] == 'v' {
        s
    } else {
        seq!['v'] + s
    }
}

/// Coerces a request to carry the leading `v`, so that every request reaches
/// shape validation in the same form.
pub fn normalize_version_request(s: &str) -> (r: String)
    ensures
        r@ == normalized_request(s@),
{
    if s.unicode_len() > 0 && s.get_char(0) == 'v' {
        s.to_owned()
    } else {
        let mut r = "v".to_owned();
        r.append(s);
        proof {
            reveal_strlit("v");
            assert(r@ =~= seq!['v'] + s@);
        }
        r
    }
}

/// Whether the views of `a` and `b` are the same character sequence.
fn str_equal(a: &str, b: &str) -> (r: bool)
    ensures
        r == (a@ == b@),
{
    let na = a.unicode_len();
    let nb = b.unicode_len();
    if na != nb {
        return false;
    }
    let mut i: usize = 0;
    while i < na
        invariant
            i <= na,
            na == a@.len() == b@.len(),
            forall|j: int| 0 <= j < i ==> a@[j] == b@[j],
        decreases na - i,
    {
        if a.get_char(i) != b.get_char(i) {
            return false;
        }
        i += 1;
    }
    proof {
        assert(a@ =~= b@);
    }
    true
}

/// Decides whether the request is the literal keyword `latest`, which takes
/// its own resolution path.
pub fn is_latest_request(s: &str) -> (r: bool)
    ensures
        r == (s@ == "latest"@),
{
    str_equal(s, "latest")
}

/// Decides exact string membership of `version` in the discovered set; the
/// check is textual, never numeric, so `v1.2.3` does not stand for `v1.02.3`.
pub fn contains_version(available: &Vec<String>, version: &str) -> (r: bool)
    ensures
        r == available.deep_view().contains(version@),
{
    let mut i: usize = 0;
    while i < available.len()
        invariant
            i <= available@.len(),
            forall|t: int| 0 <= t < i ==> available.deep_view()[t] != version@,
        decreases available@.len() - i,
    {
        proof {
            assert(available.deep_view()[i as int] == available@[i as int]@);
        }
        if str_equal(available[i].as_str(), version) {
            proof {
                assert(available.deep_view()[i as int] == version@);
            }
            return true;
        }
        i += 1;
    }
    proof {
        assert(forall|t: int|
            0 <= t < available.deep_view().len() ==> available.deep_view()[t] != version@);
    }
    false
}

/// Step one of resolution, before any fetch: normalizes the request and
/// validates its shape. `Ok` holds the normalized identifier exactly when it
/// matches `v<major>.<minor>.<patch>`; every other request is rejected as
/// `InvalidVersionFormat`.
pub fn validate_requested_version(requested: &str) -> (r: Result<String, VersionError>)
    ensures
        match r {
            Ok(v) => v@ == normalized_request(requested@) && valid_version_id(
                normalized_request(requested@),
            ),
            Err(e) => e == VersionError::InvalidVersionFormat && !valid_version_id(
                normalized_request(requested@),
            ),
        },
{
    let norm = normalize_version_request(requested);
    if is_valid_version_id(norm.as_str()) {
        Ok(norm)
    } else {
        Err(VersionError::InvalidVersionFormat)
    }
}

/// Step two of resolution, after the fetch: checks exact membership of the
/// validated identifier in the discovered set. `Ok` returns the identifier
/// unchanged; absence is `VersionNotAvailable`.
pub fn check_version_available(version: &str, available: &Vec<String>) -> (r: Result<
    String,
    VersionError,
>)
    ensures
        match r {
            Ok(v) => v@ == version@ && available.deep_view().contains(version@),
            Err(e) => e == VersionError::VersionNotAvailable && !available.deep_view().contains(
                version@,
            ),
        },
{
    if contains_version(available, version) {
        Ok(version.to_owned())
    } else {
        Err(VersionError::VersionNotAvailable)
    }
}

/// Resolves a requested version against a discovered set: the request is
/// normalized to carry the leading `v`, rejected as `InvalidVersionFormat`
/// unless it then matches `v<major>.<minor>.<patch>` exactly, and rejected as
/// `VersionNotAvailable` unless the set holds it textually; otherwise the
/// normalized identifier is returned unchanged.
pub fn resolve_version(requested: &str, available: &Vec<String>) -> (r: Result<
    String,
    VersionError,
>)
    ensures
        ({
            let norm = normalized_request(requested@);
            match r {
                Ok(v) => v@ == norm && valid_version_id(norm) && available.deep_view().contains(
                    norm,
                ),
                Err(e) => {
                    ||| (e == VersionError::InvalidVersionFormat && !valid_version_id(norm))
                    ||| (e == VersionError::VersionNotAvailable && valid_version_id(norm)
                        && !available.deep_view().contains(norm))
                },
            }
        }),
{
    match validate_requested_version(requested) {
        Ok(norm) => check_version_available(norm.as_str(), available),
        Err(e) => Err(e),
    }
}

/// Resolves the keyword `latest`: the maximum of the discovered set under the
/// version order. An empty set has no maximum and is `VersionNotAvailable`; a
/// token the comparator cannot decompose is `MalformedVersionToken`.
pub fn resolve_latest(available: &Vec<String>) -> (r: Result<String, VersionError>)
    ensures
        match r {
            Ok(v) => available.deep_view().contains(v@) && all_comparable(available.deep_view())
                && forall|i: int|
                0 <= i < available.deep_view().len() ==> version_le(
                    #[trigger] available.deep_view()[i],
                    v@,
                ),
            Err(e) => {
                ||| (e == VersionError::VersionNotAvailable && available@.len() == 0)
                ||| (e == VersionError::MalformedVersionToken && !all_comparable(
                    available.deep_view(),
                ))
            },
        },
{
    if available.len() == 0 {
        return Err(VersionError::VersionNotAvailable);
    }
    let ghost dv = available.deep_view();
    let mut k: usize = 0;
    while k < available.len()
        invariant
            k <= available@.len(),
            dv == available.deep_view(),
            forall|i: int| 0 <= i < k ==> comparable(#[trigger] dv[i]),
        decreases available@.len() - k,
    {
        proof {
            assert(dv[k as int] == available@[k as int]@);
        }
        if parse_version_triple(available[k].as_str()).is_none() {
            proof {
                assert(!comparable(dv[k as int]));
            }
            return Err(VersionError::MalformedVersionToken);
        }
        k += 1;
    }
    let mut best: usize = 0;
    let mut i: usize = 1;
    while i < available.len()
        invariant
            best < i <= available@.len(),
            dv == available.deep_view(),
            dv.len() == available@.len(),
            all_comparable(dv),
            forall|t: int| 0 <= t < i ==> version_le(#[trigger] dv[t], dv[best as int]),
        decreases available@.len() - i,
    {
        proof {
            assert(dv[i as int] == available@[i as int]@);
            assert(dv[best as int] == available@[best as int]@);
        }
        let ord = node_version_compare_fn(available[i].as_str(), available[best].as_str());
        if matches!(ord, Ordering::Greater) {
            proof {
                lemma_version_cmp_flip(dv[i as int], dv[best as int]);
                assert forall|t: int| 0 <= t < i + 1 implies version_le(
                    #[trigger] dv[t],
                    dv[i as int],
                ) by {
                    if t < i {
                        lemma_version_cmp_transitive(dv[t], dv[best as int], dv[i as int]);
                    }
                }
            }
            best = i;
        }
        i += 1;
    }
    proof {
        assert(dv[best as int] == available@[best as int]@);
        assert(dv.contains(dv[best as int]));
    }
    Ok(available[best].clone())
}

} // verus!
