//! Parsing of storage URIs of the form `s3://bucket/key-prefix`, and the
//! rule that composes a final object key from a stored key prefix and an
//! inbound request path.

use vstd::prelude::*;

verus! {

/// Holds when `s` begins with the required `s3://` scheme prefix.
pub open spec fn has_s3_scheme(s: Seq<char>) -> bool {
    s.len() >= 5 && s[0] == 's' && s[1] == '3' && s[2] == ':' && s[3] == '/' && s[4] == '/'
}

/// Index of the first `/` in `s` at or after position `i`, if any.
pub open spec fn find_slash_from(s: Seq<char>, i: int) -> Option<int>
    decreases s.len() - i,
{
    if i < 0 || i >= s.len() {
        None
    } else if s[i] == '/' {
        Some(i)
    } else {
        find_slash_from(s, i + 1)
    }
}

/// The bucket component of a storage URI: everything between the scheme
/// prefix and the first `/` after it (or the rest of the string if there is
/// no such `/`).
pub open spec fn parsed_bucket(s: Seq<char>) -> Seq<char> {
    match find_slash_from(s, 5) {
        Some(j) => s.subrange(5, j),
        None => s.subrange(5, s.len() as int),
    }
}

/// The key-prefix component of a storage URI: everything after the first `/`
/// that follows the bucket, or empty if the URI stops at the bucket.
pub open spec fn parsed_key(s: Seq<char>) -> Seq<char> {
    match find_slash_from(s, 5) {
        Some(j) => s.subrange(j + 1, s.len() as int),
        None => Seq::empty(),
    }
}

/// `s` without its leading `/` characters.
pub open spec fn trim_leading_slashes(s: Seq<char>) -> Seq<char>
    decreases s.len(),
{
    if s.len() > 0 && s[0] == '/' {
        trim_leading_slashes(s.skip(1))
    } else {
        s
    }
}

/// `s` without its trailing `/` characters.
pub open spec fn trim_trailing_slashes(s: Seq<char>) -> Seq<char>
    decreases s.len(),
{
    if s.len() > 0 && s.last() == '/' {
        trim_trailing_slashes(s.drop_last())
    } else {
        s
    }
}

/// The final object key for a stored key prefix `base` and an inbound
/// request path `path`: the path loses its leading slashes; an empty prefix
/// yields the path alone; an empty path yields the prefix without trailing
/// slashes; otherwise the two are joined with exactly one `/` between them.
pub open spec fn spec_compose_key(base: Seq<char>, path: Seq<char>) -> Seq<char> {
    let p = trim_leading_slashes(path);
    if base.len() == 0 {
        p
    } else {
        let b = trim_trailing_slashes(base);
        if p.len() == 0 {
            b
        } else {
            b + seq!['/'] + p
        }
    }
}

/// If every character of `s` from `i` up to `j` is not `/` and `s[j]` is `/`,
/// the first slash at or after `i` is at `j`.
proof fn lemma_find_slash_at(s: Seq<char>, i: int, j: int)
    requires
        0 <= i <= j < s.len(),
        s[j] == '/',
        forall|k: int| i <= k < j ==> s[k] != '/',
    ensures
        find_slash_from(s, i) == Some(j),
    decreases j - i,
{
    if i < j {
        lemma_find_slash_at(s, i + 1, j);
    }
}

/// If no character of `s` from `i` on is `/`, there is no slash to find.
proof fn lemma_find_slash_none(s: Seq<char>, i: int)
    requires
        0 <= i <= s.len(),
        forall|k: int| i <= k < s.len() ==> s[k] != '/',
    ensures
        find_slash_from(s, i) is None,
    decreases s.len() - i,
{
    if i < s.len() {
        lemma_find_slash_none(s, i + 1);
    }
}

/// Tests whether `s` begins with the required `s3://` scheme prefix.
pub fn has_scheme_prefix(s: &str) -> (r: bool)
    ensures
        r == has_s3_scheme(s@),
{
    let len = s.unicode_len();
    len >= 5 && s.get_char(0) == 's' && s.get_char(1) == '3' && s.get_char(2) == ':' && s.get_char(
        3,
    ) == '/' && s.get_char(4) == '/'
}

/// Splits a storage URI into its bucket and key-prefix components.
///
/// Returns `None` exactly when the `s3://` scheme prefix is absent;
/// otherwise the bucket runs to the first `/` after the prefix and the key
/// is the remainder (empty when the URI stops at the bucket).
pub fn split_source(s: &str) -> (r: Option<(String, String)>)
    ensures
        has_s3_scheme(s@) ==> (match r {
            Some(p) => p.0@ == parsed_bucket(s@) && p.1@ == parsed_key(s@),
            None => false,
        }),
        !has_s3_scheme(s@) ==> r is None,
{
    if !has_scheme_prefix(s) {
        return None;
    }
    let len = s.unicode_len();
    let mut i: usize = 5;
    while i < len && s.get_char(i) != '/'
        invariant
            5 <= i <= len,
            len == s@.len(),
            forall|k: int| 5 <= k < i ==> s@[k] != '/',
        decreases len - i,
    {
        i = i + 1;
    }
    if i == len {
        proof {
            lemma_find_slash_none(s@, 5);
        }
        let bucket = s.substring_char(5, len).to_owned();
        Some((bucket, String::new()))
    } else {
        proof {
            lemma_find_slash_at(s@, 5, i as int);
        }
        let bucket = s.substring_char(5, i).to_owned();
        let key = s.substring_char(i + 1, len).to_owned();
        Some((bucket, key))
    }
}

/// Splits a storage URI into bucket and key, requiring both: unlike
/// [`split_source`], a URI that stops at the bucket (no `/` after the
/// scheme prefix) is refused.
pub fn split_source_strict(s: &str) -> (r: Option<(String, String)>)
    ensures
        has_s3_scheme(s@) && find_slash_from(s@, 5) is Some ==> (match r {
            Some(p) => p.0@ == parsed_bucket(s@) && p.1@ == parsed_key(s@),
            None => false,
        }),
        !(has_s3_scheme(s@) && find_slash_from(s@, 5) is Some) ==> r is None,
{
    if !has_scheme_prefix(s) {
        return None;
    }
    let len = s.unicode_len();
    let mut i: usize = 5;
    while i < len && s.get_char(i) != '/'
        invariant
            5 <= i <= len,
            len == s@.len(),
            forall|k: int| 5 <= k < i ==> s@[k] != '/',
        decreases len - i,
    {
        i = i + 1;
    }
    if i == len {
        proof {
            lemma_find_slash_none(s@, 5);
        }
        None
    } else {
        proof {
            lemma_find_slash_at(s@, 5, i as int);
        }
        let bucket = s.substring_char(5, i).to_owned();
        let key = s.substring_char(i + 1, len).to_owned();
        Some((bucket, key))
    }
}

/// The leading slashes of `s` end at `i`: trimming them leaves `s` from `i`.
proof fn lemma_trim_leading(s: Seq<char>, i: int)
    requires
        0 <= i <= s.len(),
        forall|k: int| 0 <= k < i ==> s[k] == '/',
        i == s.len() || s[i] != '/',
    ensures
        trim_leading_slashes(s) == s.subrange(i, s.len() as int),
    decreases i,
{
    if i == 0 {
        assert(s =~= s.subrange(0, s.len() as int));
    } else {
        lemma_trim_leading(s.skip(1), i - 1);
        assert(s.skip(1).subrange(i - 1, s.skip(1).len() as int) =~= s.subrange(
            i,
            s.len() as int,
        ));
    }
}

/// The trailing slashes of `s` start at `e`: trimming them leaves `s` up to `e`.
proof fn lemma_trim_trailing(s: Seq<char>, e: int)
    requires
        0 <= e <= s.len(),
        forall|k: int| e <= k < s.len() ==> s[k] == '/',
        e == 0 || s[e - 1] != '/',
    ensures
        trim_trailing_slashes(s) == s.take(e),
    decreases s.len(),
{
    if e == s.len() {
        if s.len() > 0 {
            assert(s.last() != '/');
        }
        assert(s =~= s.take(s.len() as int));
    } else {
        assert(s.last() == '/');
        lemma_trim_trailing(s.drop_last(), e);
        assert(s.drop_last().take(e) =~= s.take(e));
    }
}

/// A trimmed path never starts with `/`.
pub proof fn lemma_trim_leading_no_slash(s: Seq<char>)
    ensures
        trim_leading_slashes(s).len() > 0 ==> trim_leading_slashes(s)[0] != '/',
    decreases s.len(),
{
    if s.len() > 0 && s[0] == '/' {
        lemma_trim_leading_no_slash(s.skip(1));
    }
}

/// A trimmed prefix never ends with `/`.
pub proof fn lemma_trim_trailing_no_slash(s: Seq<char>)
    ensures
        trim_trailing_slashes(s).len() > 0 ==> trim_trailing_slashes(s).last() != '/',
    decreases s.len(),
{
    if s.len() > 0 && s.last() == '/' {
        lemma_trim_trailing_no_slash(s.drop_last());
    }
}

/// Composes the final object key from a stored key prefix and an inbound
/// request path, per the rule of [`spec_compose_key`].
pub fn compose_key(base: &str, path: &str) -> (r: String)
    ensures
        r@ == spec_compose_key(base@, path@),
{
    let plen = path.unicode_len();
    let mut ps: usize = 0;
    while ps < plen && path.get_char(ps) == '/'
        invariant
            0 <= ps <= plen,
            plen == path@.len(),
            forall|k: int| 0 <= k < ps ==> path@[k] == '/',
        decreases plen - ps,
    {
        ps = ps + 1;
    }
    proof {
        lemma_trim_leading(path@, ps as int);
    }
    let blen = base.unicode_len();
    if blen == 0 {
        return path.substring_char(ps, plen).to_owned();
    }
    let mut be: usize = blen;
    while be > 0 && base.get_char(be - 1) == '/'
        invariant
            0 <= be <= blen,
            blen == base@.len(),
            forall|k: int| be <= k < blen ==> base@[k] == '/',
        decreases be,
    {
        be = be - 1;
    }
    proof {
        lemma_trim_trailing(base@, be as int);
        assert(base@.take(be as int) =~= base@.subrange(0, be as int));
    }
    if ps == plen {
        return base.substring_char(0, be).to_owned();
    }
    let mut out = base.substring_char(0, be).to_owned();
    out.append("/");
    out.append(path.substring_char(ps, plen));
    proof {
        reveal_strlit("/");
        assert("/"@ =~= seq!['/']);
        assert(out@ =~= spec_compose_key(base@, path@));
    }
    out
}

/// A well-formed storage URI parses back into exactly the bucket and key it
/// was built from: for a bucket with no `/` in it, `s3://` + bucket + `/` +
/// key splits into that bucket and that key.
pub proof fn lemma_parse_round_trip(bucket: Seq<char>, key: Seq<char>)
    requires
        !bucket.contains('/'),
    ensures
        has_s3_scheme(seq!['s', '3', ':', '/', '/'] + bucket + seq!['/'] + key),
        parsed_bucket(seq!['s', '3', ':', '/', '/'] + bucket + seq!['/'] + key) == bucket,
        parsed_key(seq!['s', '3', ':', '/', '/'] + bucket + seq!['/'] + key) == key,
{
    let s = seq!['s', '3', ':', '/', '/'] + bucket + seq!['/'] + key;
    assert(forall|k: int| 0 <= k < bucket.len() ==> s[5 + k] == bucket[k]);
    assert(forall|k: int| 5 <= k < 5 + bucket.len() ==> s[k] != '/') by {
        assert(forall|k: int| 5 <= k < 5 + bucket.len() ==> s[k] == bucket[k - 5]);
    }
    lemma_find_slash_at(s, 5, 5 + bucket.len() as int);
    assert(s.subrange(5, 5 + bucket.len() as int) =~= bucket);
    assert(s.subrange(5 + bucket.len() as int + 1, s.len() as int) =~= key);
}

/// A storage URI that stops at the bucket parses into that bucket and an
/// empty key.
pub proof fn lemma_parse_bucket_only(bucket: Seq<char>)
    requires
        !bucket.contains('/'),
    ensures
        has_s3_scheme(seq!['s', '3', ':', '/', '/'] + bucket),
        parsed_bucket(seq!['s', '3', ':', '/', '/'] + bucket) == bucket,
        parsed_key(seq!['s', '3', ':', '/', '/'] + bucket) == Seq::<char>::empty(),
{
    let s = seq!['s', '3', ':', '/', '/'] + bucket;
    assert(forall|k: int| 5 <= k < s.len() ==> s[k] != '/') by {
        assert(forall|k: int| 5 <= k < s.len() ==> s[k] == bucket[k - 5]);
    }
    lemma_find_slash_none(s, 5);
    assert(s.subrange(5, s.len() as int) =~= bucket);
}

/// The composed key joins the trimmed prefix and the trimmed path with
/// exactly one `/`: the prefix half never ends in `/`, the path half never
/// starts with one, so the rule neither doubles nor omits a separator.
pub proof fn lemma_compose_key_single_separator(base: Seq<char>, path: Seq<char>)
    ensures
        ({
            let b = trim_trailing_slashes(base);
            let p = trim_leading_slashes(path);
            &&& (base.len() > 0 && p.len() > 0 ==> spec_compose_key(base, path) == b + seq!['/']
                + p)
            &&& (base.len() == 0 ==> spec_compose_key(base, path) == p)
            &&& (base.len() > 0 && p.len() == 0 ==> spec_compose_key(base, path) == b)
            &&& (b.len() > 0 ==> b.last() != '/')
            &&& (p.len() > 0 ==> p[0] != '/')
        }),
{
    lemma_trim_leading_no_slash(path);
    lemma_trim_trailing_no_slash(base);
}

} // verus!
