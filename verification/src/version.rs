//! The numeric model of version identifiers and their total order.
//!
//! A version token is decomposed by first discarding every character that is
//! neither a decimal digit nor a dot, then splitting the remainder on dots
//! into fields, and reading the first three fields as the non-negative
//! integers major, minor and patch. Two tokens are ordered by comparing their
//! triples big-endian: major first, then minor, then patch.

use vstd::prelude::*;
use core::cmp::Ordering;
use crate::error::VersionError;

verus! {

/// Whether `c` is a decimal digit.
pub open spec fn is_digit_char(c: char) -> bool {
    48 <= c as u32 && c as u32 <= 57
}

/// The value of the decimal digit `c`.
pub open spec fn digit_value(c: char) -> nat
    recommends
        is_digit_char(c),
{
    ((c as u32) - 48) as nat
}

/// Whether every character of `s` is a decimal digit.
pub open spec fn all_digits(s: Seq<char>) -> bool {
    forall|i: int| 0 <= i < s.len() ==> is_digit_char(#[trigger] s[i])
}

/// The non-negative integer that the digit string `s` denotes, most
/// significant digit first; the empty string denotes zero.
pub open spec fn digits_value(s: Seq<char>) -> nat
    recommends
        all_digits(s),
    decreases s.len(),
{
    if s.len() == 0 {
        0
    } else {
        digits_value(s.drop_last()) * 10 + digit_value(s.last())
    }
}

/// Whether the comparator keeps `c`: a decimal digit or a dot.
pub open spec fn keep_char(c: char) -> bool {
    is_digit_char(c) || c == '.'
}

/// `s` with every character that is neither a digit nor a dot discarded.
pub open spec fn cleaned(s: Seq<char>) -> Seq<char>
    decreases s.len(),
{
    if s.len() == 0 {
        Seq::empty()
    } else if keep_char(s.last()) {
        cleaned(s.drop_last()).push(s.last())
    } else {
        cleaned(s.drop_last())
    }
}

/// The position of the first dot of `s` at or after `from`, or the length of
/// `s` if there is none.
pub open spec fn dot_pos(s: Seq<char>, from: int) -> int
    recommends
        0 <= from <= s.len(),
    decreases s.len() - from,
{
    if from < 0 || from >= s.len() {
        s.len() as int
    } else if s[from] == '.' {
        from
    } else {
        dot_pos(s, from + 1)
    }
}

/// Whether the comparator can decompose the token `s`: after cleaning, the
/// string splits on dots into at least three fields whose first three are
/// non-empty, and each of those three denotes a value that fits in 64 bits.
pub open spec fn comparable(s: Seq<char>) -> bool {
    let c = cleaned(s);
    let p1 = dot_pos(c, 0);
    let p2 = dot_pos(c, p1 + 1);
    let p3 = dot_pos(c, p2 + 1);
    &&& 0 < p1 < c.len()
    &&& p1 + 1 < p2 < c.len()
    &&& p2 + 1 < p3
    &&& digits_value(c.subrange(0, p1)) <= u64::MAX as nat
    &&& digits_value(c.subrange(p1 + 1, p2)) <= u64::MAX as nat
    &&& digits_value(c.subrange(p2 + 1, p3)) <= u64::MAX as nat
}

/// The (major, minor, patch) triple of the token `s`: the values of the first
/// three dot-separated fields of the cleaned string.
pub open spec fn spec_triple(s: Seq<char>) -> (nat, nat, nat)
    recommends
        comparable(s),
{
    let c = cleaned(s);
    let p1 = dot_pos(c, 0);
    let p2 = dot_pos(c, p1 + 1);
    let p3 = dot_pos(c, p2 + 1);
    (
        digits_value(c.subrange(0, p1)),
        digits_value(c.subrange(p1 + 1, p2)),
        digits_value(c.subrange(p2 + 1, p3)),
    )
}

/// Big-endian lexicographic comparison of two integer triples.
pub open spec fn spec_triple_cmp(a: (nat, nat, nat), b: (nat, nat, nat)) -> Ordering {
    if a.0 > b.0 {
        Ordering::Greater
    } else if a.0 < b.0 {
        Ordering::Less
    } else if a.1 > b.1 {
        Ordering::Greater
    } else if a.1 < b.1 {
        Ordering::Less
    } else if a.2 > b.2 {
        Ordering::Greater
    } else if a.2 < b.2 {
        Ordering::Less
    } else {
        Ordering::Equal
    }
}

/// The order of two version tokens: their triples compared big-endian.
pub open spec fn spec_version_cmp(a: Seq<char>, b: Seq<char>) -> Ordering {
    spec_triple_cmp(spec_triple(a), spec_triple(b))
}

/// Whether the token `a` sorts at or before the token `b`.
pub open spec fn version_le(a: Seq<char>, b: Seq<char>) -> bool {
    spec_version_cmp(a, b) != Ordering::Greater
}

/// Law: the comparator is reflexive; every token compares equal to itself.
pub proof fn lemma_version_cmp_reflexive(a: Seq<char>)
    ensures
        spec_version_cmp(a, a) == Ordering::Equal,
{
}

/// Law: the comparator declares two tokens equal exactly when their numeric
/// triples coincide.
pub proof fn lemma_version_cmp_equal_iff_same_triple(a: Seq<char>, b: Seq<char>)
    ensures
        (spec_version_cmp(a, b) == Ordering::Equal) <==> (spec_triple(a) == spec_triple(b)),
{
}

/// Law: the order is antisymmetric up to triple equality; two tokens that
/// each sort at or before the other compare equal.
pub proof fn lemma_version_cmp_antisymmetric(a: Seq<char>, b: Seq<char>)
    requires
        version_le(a, b),
        version_le(b, a),
    ensures
        spec_version_cmp(a, b) == Ordering::Equal,
{
}

/// Law: the order is transitive.
pub proof fn lemma_version_cmp_transitive(a: Seq<char>, b: Seq<char>, c: Seq<char>)
    requires
        version_le(a, b),
        version_le(b, c),
    ensures
        version_le(a, c),
{
}

/// Law: the order is total; of any two tokens one sorts at or before the
/// other.
pub proof fn lemma_version_cmp_total(a: Seq<char>, b: Seq<char>)
    ensures
        version_le(a, b) || version_le(b, a),
{
}

/// Law: the comparator is antisymmetric as a relation; comparing in the
/// reversed argument order flips Greater and Less.
pub proof fn lemma_version_cmp_flip(a: Seq<char>, b: Seq<char>)
    ensures
        (spec_version_cmp(a, b) == Ordering::Greater) <==> (spec_version_cmp(b, a)
            == Ordering::Less),
{
}

/// Every position at or after `from` and before the first dot holds no dot,
/// and the first dot position holds a dot unless it is the length.
pub proof fn lemma_dot_pos_properties(s: Seq<char>, from: int)
    requires
        0 <= from <= s.len(),
    ensures
        from <= dot_pos(s, from) <= s.len(),
        dot_pos(s, from) < s.len() ==> s[dot_pos(s, from)] == '.',
        forall|j: int| from <= j < dot_pos(s, from) ==> s[j] != '.',
    decreases s.len() - from,
{
    if from < s.len() && s[from] != '.' {
        lemma_dot_pos_properties(s, from + 1);
    }
}

/// Every character of a cleaned string is a digit or a dot.
pub proof fn lemma_cleaned_chars(s: Seq<char>)
    ensures
        forall|i: int| 0 <= i < cleaned(s).len() ==> keep_char(#[trigger] cleaned(s)[i]),
    decreases s.len(),
{
    if s.len() > 0 {
        lemma_cleaned_chars(s.drop_last());
        assert forall|i: int| 0 <= i < cleaned(s).len() implies keep_char(
            #[trigger] cleaned(s)[i],
        ) by {
            if keep_char(s.last()) {
                if i < cleaned(s.drop_last()).len() {
                    assert(cleaned(s)[i] == cleaned(s.drop_last())[i]);
                } else {
                    assert(cleaned(s)[i] == s.last());
                }
            } else {
                assert(cleaned(s)[i] == cleaned(s.drop_last())[i]);
            }
        }
    }
}

/// Reading more digits never shrinks the value: the value of a prefix of a
/// digit string is at most the value of the whole string.
pub proof fn lemma_digits_value_take_le(s: Seq<char>, i: int)
    requires
        0 <= i <= s.len(),
    ensures
        digits_value(s.take(i)) <= digits_value(s),
    decreases s.len() - i,
{
    if i < s.len() {
        assert(s.take(i + 1).drop_last() =~= s.take(i));
        assert(digits_value(s.take(i + 1)) == digits_value(s.take(i)) * 10 + digit_value(
            s.take(i + 1).last(),
        ));
        lemma_digits_value_take_le(s, i + 1);
    } else {
        assert(s.take(i) =~= s);
    }
}

/// The characters of `s`, in order.
pub(crate) fn chars_of(s: &str) -> (r: Vec<char>)
    ensures
        r@ == s@,
{
    let n = s.unicode_len();
    let mut r: Vec<char> = Vec::new();
    let mut i: usize = 0;
    while i < n
        invariant
            i <= n,
            n == s@.len(),
            r@ == s@.take(i as int),
        decreases n - i,
    {
        let c = s.get_char(i);
        r.push(c);
        proof {
            assert(s@.take(i + 1 as int) =~= s@.take(i as int).push(s@[i as int]));
        }
        i += 1;
    }
    proof {
        assert(s@.take(n as int) =~= s@);
    }
    r
}

/// Whether `c` is a decimal digit.
pub(crate) fn is_digit(c: char) -> (r: bool)
    ensures
        r == is_digit_char(c),
{
    let u = c as u32;
    48 <= u && u <= 57
}

/// Discards every character of `v` that is neither a digit nor a dot.
fn clean_version_chars(v: &Vec<char>) -> (r: Vec<char>)
    ensures
        r@ == cleaned(v@),
{
    let mut r: Vec<char> = Vec::new();
    let mut i: usize = 0;
    while i < v.len()
        invariant
            i <= v.len(),
            r@ == cleaned(v@.take(i as int)),
        decreases v.len() - i,
    {
        let c = v[i];
        if is_digit(c) || c == '.' {
            r.push(c);
        }
        proof {
            assert(v@.take(i + 1 as int).drop_last() =~= v@.take(i as int));
            assert(v@.take(i + 1 as int).last() == v@[i as int]);
        }
        i += 1;
    }
    proof {
        assert(v@.take(v@.len() as int) =~= v@);
    }
    r
}

/// The index of the first dot of `v` at or after `from`, or `v.len()` if
/// there is none.
pub(crate) fn find_dot(v: &Vec<char>, from: usize) -> (r: usize)
    requires
        from <= v.len(),
    ensures
        r == dot_pos(v@, from as int),
        from <= r <= v.len(),
{
    let mut i = from;
    while i < v.len()
        invariant
            from <= i <= v.len(),
            dot_pos(v@, from as int) == dot_pos(v@, i as int),
        decreases v.len() - i,
    {
        if v[i] == '.' {
            return i;
        }
        i += 1;
    }
    i
}

/// Reads the digit string `v[from..to]` as a 64-bit integer, or reports that
/// its value does not fit.
fn parse_decimal(v: &Vec<char>, from: usize, to: usize) -> (r: Option<u64>)
    requires
        from < to <= v.len(),
        all_digits(v@.subrange(from as int, to as int)),
    ensures
        match r {
            Some(n) => n as nat == digits_value(v@.subrange(from as int, to as int)),
            None => digits_value(v@.subrange(from as int, to as int)) > u64::MAX as nat,
        },
{
    let ghost fld = v@.subrange(from as int, to as int);
    let mut acc: u64 = 0;
    let mut i = from;
    while i < to
        invariant
            from <= i <= to <= v.len(),
            fld == v@.subrange(from as int, to as int),
            all_digits(fld),
            acc as nat == digits_value(fld.take(i - from)),
        decreases to - i,
    {
        let c = v[i];
        let ghost k = i - from;
        proof {
            assert(fld[k] == v@[i as int]);
            assert(is_digit_char(c));
            assert(fld.take(k + 1).drop_last() =~= fld.take(k));
            assert(fld.take(k + 1).last() == fld[k]);
            assert(digits_value(fld.take(k + 1)) == digits_value(fld.take(k)) * 10 + digit_value(
                fld[k],
            ));
        }
        let d = (c as u32 - 48) as u64;
        proof {
            assert(digit_value(fld[k]) == d as nat);
        }
        if acc > 1844674407370955161u64 || (acc == 1844674407370955161u64 && d > 5) {
            proof {
                assert(digits_value(fld.take(k + 1)) > u64::MAX as nat);
                lemma_digits_value_take_le(fld, k + 1);
            }
            return None;
        }
        acc = acc * 10 + d;
        i += 1;
    }
    proof {
        assert(fld.take(to - from) =~= fld);
    }
    Some(acc)
}

/// Decomposes the token `s` into its (major, minor, patch) triple: the first
/// three dot-separated fields of the cleaned string, read as integers. `None`
/// exactly when the comparator cannot decompose `s`: fewer than three fields,
/// an empty field among the first three, or a field value over 64 bits.
pub fn parse_version_triple(s: &str) -> (r: Option<(u64, u64, u64)>)
    ensures
        match r {
            Some(t) => comparable(s@) && (t.0 as nat, t.1 as nat, t.2 as nat) == spec_triple(s@),
            None => !comparable(s@),
        },
{
    let chars = chars_of(s);
    let c = clean_version_chars(&chars);
    let p1 = find_dot(&c, 0);
    if p1 == 0 || p1 == c.len() {
        return None;
    }
    let p2 = find_dot(&c, p1 + 1);
    if p2 == p1 + 1 || p2 == c.len() {
        return None;
    }
    let p3 = find_dot(&c, p2 + 1);
    if p3 == p2 + 1 {
        return None;
    }
    proof {
        lemma_cleaned_chars(s@);
        lemma_dot_pos_properties(c@, 0);
        lemma_dot_pos_properties(c@, p1 + 1);
        lemma_dot_pos_properties(c@, p2 + 1);
        assert forall|j: int| 0 <= j < p1 implies is_digit_char(
            #[trigger] c@.subrange(0, p1 as int)[j],
        ) by {
            assert(c@[j] != '.');
        }
        assert forall|j: int| 0 <= j < p2 - p1 - 1 implies is_digit_char(
            #[trigger] c@.subrange(p1 + 1, p2 as int)[j],
        ) by {
            assert(c@[j + p1 + 1] != '.');
        }
        assert forall|j: int| 0 <= j < p3 - p2 - 1 implies is_digit_char(
            #[trigger] c@.subrange(p2 + 1, p3 as int)[j],
        ) by {
            assert(c@[j + p2 + 1] != '.');
        }
    }
    let major = match parse_decimal(&c, 0, p1) {
        Some(n) => n,
        None => {
            return None;
        },
    };
    let minor = match parse_decimal(&c, p1 + 1, p2) {
        Some(n) => n,
        None => {
            return None;
        },
    };
    let patch = match parse_decimal(&c, p2 + 1, p3) {
        Some(n) => n,
        None => {
            return None;
        },
    };
    Some((major, minor, patch))
}

/// Totally orders two version tokens by their numeric triples, big-endian:
/// major first, then minor, then patch; equal triples compare equal.
pub fn node_version_compare_fn(a: &str, b: &str) -> (r: Ordering)
    requires
        comparable(a@),
        comparable(b@),
    ensures
        r == spec_version_cmp(a@, b@),
{
    let ta = parse_version_triple(a).unwrap();
    let tb = parse_version_triple(b).unwrap();
    if ta.0 > tb.0 {
        Ordering::Greater
    } else if ta.0 < tb.0 {
        Ordering::Less
    } else if ta.1 > tb.1 {
        Ordering::Greater
    } else if ta.1 < tb.1 {
        Ordering::Less
    } else if ta.2 > tb.2 {
        Ordering::Greater
    } else if ta.2 < tb.2 {
        Ordering::Less
    } else {
        Ordering::Equal
    }
}

/// Totally orders two version tokens as `node_version_compare_fn` does, but
/// reports a token that cannot be decomposed instead of requiring both to be
/// decomposable.
pub fn try_version_compare(a: &str, b: &str) -> (r: Result<Ordering, VersionError>)
    ensures
        match r {
            Ok(o) => comparable(a@) && comparable(b@) && o == spec_version_cmp(a@, b@),
            Err(e) => e == VersionError::MalformedVersionToken && !(comparable(a@) && comparable(
                b@,
            )),
        },
{
    if parse_version_triple(a).is_none() {
        return Err(VersionError::MalformedVersionToken);
    }
    if parse_version_triple(b).is_none() {
        return Err(VersionError::MalformedVersionToken);
    }
    Ok(node_version_compare_fn(a, b))
}

/// Whether the comparator can decompose every token of `s`.
pub open spec fn all_comparable(s: Seq<Seq<char>>) -> bool {
    forall|i: int| 0 <= i < s.len() ==> comparable(#[trigger] s[i])
}

/// Whether `s` is ascending under the version order.
pub open spec fn sorted_by_version(s: Seq<Seq<char>>) -> bool {
    forall|i: int, j: int| 0 <= i < j < s.len() ==> version_le(#[trigger] s[i], #[trigger] s[j])
}

/// The position where `x` belongs in the prefix `v[0..i]`, which must be
/// sorted: the first index whose element sorts strictly after `x`, or `i`.
fn insertion_point(v: &Vec<String>, i: usize, x: &String) -> (r: usize)
    requires
        i <= v@.len(),
        comparable(x@),
        forall|t: int| 0 <= t < i ==> comparable(#[trigger] v.deep_view()[t]),
        sorted_by_version(v.deep_view().take(i as int)),
    ensures
        r <= i,
        forall|t: int| 0 <= t < r ==> version_le(#[trigger] v.deep_view()[t], x@),
        forall|t: int| r <= t < i ==> version_le(x@, #[trigger] v.deep_view()[t]),
{
    let mut j: usize = 0;
    while j < i
        invariant
            j <= i <= v@.len(),
            comparable(x@),
            forall|t: int| 0 <= t < i ==> comparable(#[trigger] v.deep_view()[t]),
            sorted_by_version(v.deep_view().take(i as int)),
            forall|t: int| 0 <= t < j ==> version_le(#[trigger] v.deep_view()[t], x@),
        decreases i - j,
    {
        proof {
            assert(v.deep_view()[j as int] == v@[j as int]@);
        }
        let e = &v[j];
        let ord = node_version_compare_fn(e.as_str(), x.as_str());
        if matches!(ord, Ordering::Greater) {
            proof {
                let dv = v.deep_view();
                lemma_version_cmp_flip(dv[j as int], x@);
                assert forall|t: int| j <= t < i implies version_le(x@, #[trigger] dv[t]) by {
                    assert(dv.take(i as int)[j as int] == dv[j as int]);
                    assert(dv.take(i as int)[t] == dv[t]);
                    lemma_version_cmp_transitive(x@, dv[j as int], dv[t]);
                }
            }
            return j;
        }
        j += 1;
    }
    j
}

/// Sorts version tokens ascending under the version order, or reports the
/// first token that the comparator cannot decompose. On success the result
/// holds exactly the tokens of the input, as a bag, in ascending order.
pub fn sort_versions(versions: Vec<String>) -> (r: Result<Vec<String>, VersionError>)
    ensures
        match r {
            Ok(out) => all_comparable(versions.deep_view()) && sorted_by_version(out.deep_view())
                && out.deep_view().to_multiset() == versions.deep_view().to_multiset(),
            Err(e) => e == VersionError::MalformedVersionToken && !all_comparable(
                versions.deep_view(),
            ),
        },
{
    broadcast use vstd::seq_lib::group_to_multiset_ensures;
    broadcast use vstd::multiset::group_multiset_axioms;

    let mut k: usize = 0;
    while k < versions.len()
        invariant
            k <= versions.len(),
            forall|i: int| 0 <= i < k ==> comparable(#[trigger] versions.deep_view()[i]),
        decreases versions.len() - k,
    {
        proof {
            assert(versions.deep_view()[k as int] == versions@[k as int]@);
        }
        let e = &versions[k];
        if parse_version_triple(e.as_str()).is_none() {
            proof {
                assert(!comparable(versions.deep_view()[k as int]));
            }
            return Err(VersionError::MalformedVersionToken);
        }
        k += 1;
    }
    let ghost dv0 = versions.deep_view();
    let mut v = versions;
    let mut i: usize = 0;
    while i < v.len()
        invariant
            i <= v@.len(),
            v@.len() == dv0.len(),
            v.deep_view().to_multiset() == dv0.to_multiset(),
            all_comparable(dv0),
            all_comparable(v.deep_view()),
            sorted_by_version(v.deep_view().take(i as int)),
        decreases v.len() - i,
    {
        let ghost dva = v.deep_view();
        let x = v.remove(i);
        proof {
            assert(x@ == dva[i as int]);
            assert(v.deep_view() =~= dva.remove(i as int));
            assert(v.deep_view().take(i as int) =~= dva.take(i as int));
        }
        let ghost dvb = v.deep_view();
        let j = insertion_point(&v, i, &x);
        v.insert(j, x);
        proof {
            assert(v.deep_view() =~= dvb.insert(j as int, x@));
            let dvc = v.deep_view();
            // the bag of tokens is unchanged by taking one out and putting it back
            vstd::seq_lib::to_multiset_insert(dvb, j as int, x@);
            vstd::seq_lib::to_multiset_remove(dva, i as int);
            assert(dva.contains(dva[i as int]));
            vstd::seq_lib::to_multiset_contains(dva, x@);
            assert(dva.to_multiset().count(x@) > 0);
            assert(dvc.to_multiset() =~= dva.to_multiset());
            // ascending on the grown prefix: element by element over the insertion
            assert forall|s: int, t: int| 0 <= s < t < i + 1 implies version_le(
                #[trigger] dvc[s],
                #[trigger] dvc[t],
            ) by {
                assert(forall|u: int|
                    0 <= u < i ==> dvb.take(i as int)[u] == #[trigger] dvb[u]);
                assert(forall|u: int, w: int|
                    0 <= u < w < i ==> version_le(#[trigger] dvb[u], #[trigger] dvb[w]));
            }
            assert(sorted_by_version(dvc.take(i + 1 as int)));
        }
        i += 1;
    }
    proof {
        assert(v.deep_view().take(v@.len() as int) =~= v.deep_view());
    }
    Ok(v)
}

} // verus!
