//! Extraction of version tokens from an HTML directory listing.
//!
//! The index page renders one hyperlink per release folder. Of the document
//! structure only the anchor elements matter: each anchor's first text
//! fragment is a candidate token. A candidate is kept when it begins with
//! `v`; a trailing path separator is stripped. No numeric validation happens
//! here — the stricter triple check belongs to the consumers.

use vstd::prelude::*;

verus! {

/// The first text fragment of each anchor element of the markup, in document
/// order, one entry per anchor (empty for an anchor without text). The HTML
/// parse is a function of the markup alone.
pub uninterp spec fn anchor_texts_of(markup: Seq<char>) -> Seq<Seq<char>>;

/// Relies on scraper's `Html::parse_document`, `Html::select` and
/// `ElementRef::text`: parsing a document is deterministic in the markup,
/// selection with the element selector `a` walks the anchors in document
/// order, and `text` yields an anchor's text fragments in order.
/// `Selector::parse("a")` cannot fail: `a` is a well-formed selector.
#[verifier::external_body]
fn anchor_first_texts(markup: &str) -> (r: Vec<String>)
    ensures
        r.deep_view() == anchor_texts_of(markup@),
{
    let document = scraper::Html::parse_document(markup);
    let selector = scraper::Selector::parse("a").unwrap();
    let mut texts = Vec::new();
    for node in document.select(&selector) {
        texts.push(node.text().next().unwrap_or("").to_string());
    }
    texts
}

/// Whether a candidate token is kept: it begins with the character `v`.
pub open spec fn keep_token(t: Seq<char>) -> bool {
    t.len() > 0 && t[0] == 'v'
}

/// `t` with every trailing path separator removed.
pub open spec fn strip_trailing_slashes(t: Seq<char>) -> Seq<char>
    decreases t.len(),
{
    if t.len() > 0 && t.last() == '/' {
        strip_trailing_slashes(t.drop_last())
    } else {
        t
    }
}

/// The version tokens of a list of anchor texts: the texts that begin with
/// `v`, in order, each with its trailing path separators stripped.
pub open spec fn version_set_of(texts: Seq<Seq<char>>) -> Seq<Seq<char>>
    decreases texts.len(),
{
    if texts.len() == 0 {
        Seq::empty()
    } else {
        let rest = version_set_of(texts.drop_last());
        if keep_token(texts.last()) {
            rest.push(strip_trailing_slashes(texts.last()))
        } else {
            rest
        }
    }
}

/// `t` truncated to its first `end` characters, where everything from `end`
/// on is a path separator and `end` itself is not: exactly the stripped token.
proof fn lemma_strip_is_take(t: Seq<char>, end: int)
    requires
        0 <= end <= t.len(),
        forall|j: int| end <= j < t.len() ==> t[j] == '/',
        end > 0 ==> t[end - 1] != '/',
    ensures
        strip_trailing_slashes(t) == t.take(end),
    decreases t.len(),
{
    if t.len() > 0 && t.last() == '/' {
        assert(end < t.len());
        lemma_strip_is_take(t.drop_last(), end);
        assert(t.drop_last().take(end) =~= t.take(end));
    } else {
        assert(t.take(end) =~= t);
    }
}

/// Removes the trailing path separators of `t`.
fn strip_trailing_slashes_exec(t: &str) -> (r: String)
    ensures
        r@ == strip_trailing_slashes(t@),
{
    let n = t.unicode_len();
    let mut end = n;
    while end > 0 && t.get_char(end - 1) == '/'
        invariant
            end <= n,
            n == t@.len(),
            forall|j: int| end <= j < n ==> t@[j] == '/',
        decreases end,
    {
        end -= 1;
    }
    proof {
        lemma_strip_is_take(t@, end as int);
    }
    let stripped = t.substring_char(0, end);
    proof {
        assert(t@.subrange(0, end as int) =~= t@.take(end as int));
    }
    stripped.to_owned()
}

/// Parses an index listing into its version tokens: the anchor texts that
/// begin with `v`, in document order, each with trailing path separators
/// stripped. Malformed entries are dropped silently, never reported. The
/// result is a function of the markup alone.
pub fn parse_version_set(markup: &str) -> (r: Vec<String>)
    ensures
        r.deep_view() == version_set_of(anchor_texts_of(markup@)),
{
    let texts = anchor_first_texts(markup);
    let ghost ts = texts.deep_view();
    let mut out: Vec<String> = Vec::new();
    let mut i: usize = 0;
    while i < texts.len()
        invariant
            i <= texts@.len(),
            ts == texts.deep_view(),
            ts.len() == texts@.len(),
            out.deep_view() == version_set_of(ts.take(i as int)),
        decreases texts.len() - i,
    {
        proof {
            assert(ts[i as int] == texts@[i as int]@);
            assert(ts.take(i + 1 as int).drop_last() =~= ts.take(i as int));
            assert(ts.take(i + 1 as int).last() == ts[i as int]);
        }
        let ghost before = out.deep_view();
        let t = &texts[i];
        if t.as_str().unicode_len() > 0 && t.as_str().get_char(0) == 'v' {
            let stripped = strip_trailing_slashes_exec(t.as_str());
            out.push(stripped);
            proof {
                assert(out.deep_view() =~= before.push(strip_trailing_slashes(ts[i as int])));
            }
        }
        i += 1;
    }
    proof {
        assert(ts.take(ts.len() as int) =~= ts);
    }
    out
}

/// Law: parsing is free of hidden state; the version set is a function of
/// the markup alone, so parsing the same markup twice yields identical sets.
pub proof fn lemma_parse_version_set_deterministic(
    markup: Seq<char>,
    r1: Seq<Seq<char>>,
    r2: Seq<Seq<char>>,
)
    requires
        r1 == version_set_of(anchor_texts_of(markup)),
        r2 == version_set_of(anchor_texts_of(markup)),
    ensures
        r1 == r2,
{
}

} // verus!
