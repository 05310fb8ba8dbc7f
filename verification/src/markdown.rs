//! The markdown-like content parser: frontmatter between `---` fences,
//! then a body of blocks separated by blank lines, with inline code, bold,
//! italic and link tokens.

use vstd::prelude::*;

verus! {

use crate::common::{
    Block,
    BlockModel,
    FrontMatter,
    FrontMatterModel,
    Markdown,
    MarkdownModel,
    markdown_model,
    Token,
    TokenModel,
    blocks_model,
    block_model,
    token_model,
    tokens_model,
};
use crate::text::{chars_to_string, str_to_chars, subvec_chars};
use crate::utils::{slugify, spec_slugify};

broadcast use crate::text::lemma_chars_deep_view;

/// How parsing can fail: unreadable input, or content that does not follow
/// the format.
#[derive(Clone, Copy, Debug, PartialEq, Eq, Structural)]
pub enum MarkdownError {
    IoError,
    ParseError,
}

// ---------------------------------------------------------------------------
// Frontmatter.
// ---------------------------------------------------------------------------
/// What `serde_yaml` parses a string-to-string mapping into, as key-value
/// pairs ordered by key; absent when the text is not such a mapping.
pub uninterp spec fn yaml_pairs_of(s: Seq<char>) -> Option<Seq<(Seq<char>, Seq<char>)>>;

/// Relies on `serde_yaml::from_str` for `BTreeMap<String, String>`: parsing
/// is a function of the text alone, and the map iterates in key order.
#[verifier::external_body]
fn parse_yaml_pairs(s: &str) -> (r: Option<Vec<(String, String)>>)
    ensures
        match (r, yaml_pairs_of(s@)) {
            (Some(v), Some(m)) => crate::common::pairs_model(v@) == m,
            (None, None) => true,
            _ => false,
        },
{
    let map: std::collections::BTreeMap<String, String> = match serde_yaml::from_str(s) {
        Ok(m) => m,
        Err(_) => return None,
    };
    Some(map.into_iter().collect())
}

/// What `chrono` reads out of an RFC 3339 timestamp: its seconds since the
/// epoch; absent when the text is not a valid timestamp.
pub uninterp spec fn rfc3339_epoch_of(s: Seq<char>) -> Option<i64>;

/// Relies on `chrono::DateTime::parse_from_rfc3339` and
/// `DateTime::timestamp`: the epoch second is a function of the text
/// alone.
#[verifier::external_body]
fn parse_rfc3339(s: &str) -> (r: Option<i64>)
    ensures
        r == rfc3339_epoch_of(s@),
{
    match chrono::DateTime::parse_from_rfc3339(s) {
        Ok(dt) => Some(dt.timestamp()),
        Err(_) => None,
    }
}

/// The value stored under a key, first match.
pub open spec fn spec_lookup(pairs: Seq<(Seq<char>, Seq<char>)>, key: Seq<char>) -> Option<
    Seq<char>,
>
    decreases pairs.len(),
{
    if pairs.len() == 0 {
        None
    } else if pairs[0].0 == key {
        Some(pairs[0].1)
    } else {
        spec_lookup(pairs.drop_first(), key)
    }
}

/// Look a key up in a pair list.
fn lookup_pair(pairs: &Vec<(String, String)>, key: &str) -> (r: Option<String>)
    ensures
        match (r, spec_lookup(crate::common::pairs_model(pairs@), key@)) {
            (Some(v), Some(m)) => v@ == m,
            (None, None) => true,
            _ => false,
        },
{
    let ghost pm = crate::common::pairs_model(pairs@);
    let n = pairs.len();
    proof {
        assert(pm.skip(0) =~= pm);
    }
    for i in 0..n
        invariant
            n == pairs.len(),
            pm == crate::common::pairs_model(pairs@),
            spec_lookup(pm, key@) == spec_lookup(pm.skip(i as int), key@),
    {
        let ghost rest = pm.skip(i as int);
        proof {
            assert(rest[0] == pm[i as int]);
            assert(rest.drop_first() =~= pm.skip(i + 1));
        }
        if crate::text::str_eq(pairs[i].0.as_str(), key) {
            return Some(pairs[i].1.clone());
        }
    }
    proof {
        assert(pm.skip(n as int) =~= Seq::<(Seq<char>, Seq<char>)>::empty());
    }
    None
}

/// The frontmatter read from parsed key-value pairs: the title is
/// required, the timestamp is required and must parse, and the slug
/// defaults to the slugified title.
pub open spec fn spec_frontmatter_from_pairs(pairs: Seq<(Seq<char>, Seq<char>)>) -> Option<
    FrontMatterModel,
> {
    match (spec_lookup(pairs, "title"@), spec_lookup(pairs, "timestamp"@)) {
        (Some(title), Some(ts)) => match rfc3339_epoch_of(ts) {
            Some(epoch) => Some(
                FrontMatterModel {
                    title: title,
                    timestamp: epoch,
                    slug: match spec_lookup(pairs, "slug"@) {
                        Some(s) => s,
                        None => spec_slugify(title),
                    },
                },
            ),
            None => None,
        },
        _ => None,
    }
}

impl FrontMatter {
    /// Build frontmatter from key-value pairs; a missing title, a missing
    /// timestamp or an invalid timestamp is a parse error.
    pub fn from_pairs(pairs: &Vec<(String, String)>) -> (r: Result<FrontMatter, MarkdownError>)
        ensures
            match (r, spec_frontmatter_from_pairs(crate::common::pairs_model(pairs@))) {
                (Ok(f), Some(m)) => f@ == m,
                (Err(e), None) => e == MarkdownError::ParseError,
                _ => false,
            },
    {
        let title = match lookup_pair(pairs, "title") {
            Some(t) => t,
            None => return Err(MarkdownError::ParseError),
        };
        let ts = match lookup_pair(pairs, "timestamp") {
            Some(t) => t,
            None => return Err(MarkdownError::ParseError),
        };
        let epoch = match parse_rfc3339(ts.as_str()) {
            Some(e) => e,
            None => return Err(MarkdownError::ParseError),
        };
        let slug = match lookup_pair(pairs, "slug") {
            Some(s) => s,
            None => slugify(title.as_str()),
        };
        Ok(FrontMatter { title, timestamp: epoch, slug })
    }
}

/// The index of the first occurrence of `pat` in `s`.
pub open spec fn spec_find_sub(s: Seq<char>, pat: Seq<char>) -> Option<int>
    decreases s.len(),
{
    if pat.len() == 0 {
        Some(0)
    } else if s.len() < pat.len() {
        None
    } else if s.take(pat.len() as int) == pat {
        Some(0)
    } else {
        match spec_find_sub(s.skip(1), pat) {
            Some(i) => Some(i + 1),
            None => None,
        }
    }
}

/// An occurrence found by `spec_find_sub` lies in range.
pub proof fn lemma_find_sub_range(s: Seq<char>, pat: Seq<char>)
    ensures
        match spec_find_sub(s, pat) {
            Some(i) => 0 <= i && i + pat.len() <= s.len() && s.subrange(i, i + pat.len()) == pat,
            None => true,
        },
    decreases s.len(),
{
    if pat.len() == 0 {
        assert(s.subrange(0, 0) =~= pat);
    } else if s.len() < pat.len() {
    } else if s.take(pat.len() as int) == pat {
        assert(s.subrange(0, pat.len() as int) == s.take(pat.len() as int));
    } else {
        lemma_find_sub_range(s.skip(1), pat);
        match spec_find_sub(s.skip(1), pat) {
            Some(i) => {
                assert(i + 1 + pat.len() <= s.len());
                assert(s.skip(1).subrange(i, i + pat.len()) =~= s.subrange(
                    i + 1,
                    i + 1 + pat.len(),
                ));
            },
            None => {},
        }
    }
}

/// Find the first occurrence of `pat` in `v` starting at `from`.
fn find_sub_from(v: &Vec<char>, from: usize, pat: &Vec<char>) -> (r: Option<usize>)
    requires
        from <= v@.len(),
    ensures
        match (r, spec_find_sub(v@.skip(from as int), pat@)) {
            (Some(i), Some(j)) => from + j == i,
            (None, None) => true,
            _ => false,
        },
    decreases v@.len() - from,
{
    let n = v.len();
    let m = pat.len();
    let ghost suffix = v@.skip(from as int);
    if m == 0 {
        return Some(from);
    }
    if n - from < m {
        return None;
    }
    // Try a match at `from`.
    let mut matches = true;
    let mut k: usize = 0;
    while matches && k < m
        invariant
            m == pat.len(),
            from + m <= n,
            n == v.len(),
            k <= m,
            matches ==> forall|j: int| 0 <= j < k ==> v@[from + j] == pat@[j],
            !matches ==> exists|j: int| 0 <= j < m && v@[from + j] != pat@[j],
        decreases m - k, (if matches {
            1int
        } else {
            0int
        }),
    {
        if v[from + k] != pat[k] {
            matches = false;
        } else {
            k = k + 1;
        }
    }
    if matches {
        proof {
            assert(suffix.take(m as int) =~= pat@);
        }
        return Some(from);
    }
    proof {
        assert(suffix.take(m as int) != pat@) by {
            let j = choose|j: int| 0 <= j < m && v@[from + j] != pat@[j];
            assert(suffix.take(m as int)[j] == v@[from + j]);
        }
        assert(suffix.skip(1) =~= v@.skip(from + 1));
    }
    match find_sub_from(v, from + 1, pat) {
        Some(i) => Some(i),
        None => None,
    }
}

/// How many newline characters open the text.
pub open spec fn spec_count_leading_newlines(s: Seq<char>) -> int
    decreases s.len(),
{
    if s.len() > 0 && s[0] == '\n' {
        1 + spec_count_leading_newlines(s.skip(1))
    } else {
        0
    }
}

/// Count the newline characters starting at `from`.
fn count_newlines_from(v: &Vec<char>, from: usize) -> (r: usize)
    requires
        from <= v@.len(),
    ensures
        from + spec_count_leading_newlines(v@.skip(from as int)) == r,
        from <= r <= v@.len(),
{
    let n = v.len();
    let mut i = from;
    while i < n && v[i] == '\n'
        invariant
            from <= i <= n,
            n == v@.len(),
            spec_count_leading_newlines(v@.skip(from as int)) == (i - from)
                + spec_count_leading_newlines(v@.skip(i as int)),
        decreases n - i,
    {
        let ghost rest = v@.skip(i as int);
        proof {
            assert(rest[0] == v@[i as int]);
            assert(rest.skip(1) =~= v@.skip(i + 1));
        }
        i = i + 1;
    }
    proof {
        if i < n {
            assert(v@.skip(i as int)[0] == v@[i as int]);
            assert(spec_count_leading_newlines(v@.skip(i as int)) == 0);
        } else {
            assert(v@.skip(i as int).len() == 0);
            assert(spec_count_leading_newlines(v@.skip(i as int)) == 0);
        }
    }
    i
}

/// The frontmatter fence.
fn dashes() -> (r: Vec<char>)
    ensures
        r@ == seq!['-', '-', '-'],
{
    let mut r: Vec<char> = Vec::new();
    r.push('-');
    r.push('-');
    r.push('-');
    proof {
        assert(r@ =~= seq!['-', '-', '-']);
    }
    r
}

/// A parsed frontmatter section: leading newlines, a `---` fence, the
/// fenced key-value text, the closing fence, trailing newlines; then the
/// fields read out of the pairs.  The result carries how much of the text
/// the section consumed.
pub open spec fn spec_parse_frontmatter(s: Seq<char>) -> Option<(FrontMatterModel, int)> {
    let n1 = spec_count_leading_newlines(s);
    let s1 = s.skip(n1);
    if s1.len() >= 3 && s1.take(3) == seq!['-', '-', '-'] {
        let s2 = s1.skip(3);
        match spec_find_sub(s2, seq!['-', '-', '-']) {
            Some(i) => {
                let raw = s2.take(i);
                let s3 = s2.skip(i + 3);
                let n2 = spec_count_leading_newlines(s3);
                let offset = n1 + 3 + i + 3 + n2;
                match yaml_pairs_of(raw) {
                    Some(pairs) => match spec_frontmatter_from_pairs(pairs) {
                        Some(fm) => Some((fm, offset)),
                        None => None,
                    },
                    None => None,
                }
            },
            None => None,
        }
    } else {
        None
    }
}

/// Parse the frontmatter section of the contents, returning it together
/// with the number of characters it consumed.
pub fn parse_frontmatter(contents: &str) -> (r: Result<(FrontMatter, usize), MarkdownError>)
    ensures
        match (r, spec_parse_frontmatter(contents@)) {
            (Ok(p), Some(m)) => p.0@ == m.0 && p.1 == m.1 && p.1 <= contents@.len(),
            (Err(e), None) => e == MarkdownError::ParseError,
            _ => false,
        },
{
    let v = str_to_chars(contents);
    let n = v.len();
    let n1 = count_newlines_from(&v, 0);
    let ghost s1 = v@.skip(n1 as int);
    proof {
        assert(v@.skip(0) =~= v@);
    }
    // The opening fence.
    if n - n1 < 3 || !(v[n1] == '-' && v[n1 + 1] == '-' && v[n1 + 2] == '-') {
        proof {
            if s1.len() >= 3 && s1.take(3) == seq!['-', '-', '-'] {
                assert(s1[0] == v@[n1 as int]);
                assert(s1[1] == v@[n1 + 1]);
                assert(s1[2] == v@[n1 + 2]);
                assert(s1.take(3)[0] == '-' && s1.take(3)[1] == '-' && s1.take(3)[2] == '-');
            }
        }
        return Err(MarkdownError::ParseError);
    }
    proof {
        assert(s1.take(3) =~= seq!['-', '-', '-']) by {
            assert(s1.take(3)[0] == v@[n1 as int]);
            assert(s1.take(3)[1] == v@[n1 + 1]);
            assert(s1.take(3)[2] == v@[n1 + 2]);
        }
        assert(s1.skip(3) =~= v@.skip(n1 + 3));
    }
    let pat = dashes();
    let ghost s2 = s1.skip(3);
    // The closing fence.
    let fence = match find_sub_from(&v, n1 + 3, &pat) {
        Some(i) => i,
        None => {
            return Err(MarkdownError::ParseError);
        },
    };
    let ghost j = fence - (n1 + 3);
    proof {
        lemma_find_sub_range(s2, seq!['-', '-', '-']);
        assert(s2.take(j as int) =~= v@.subrange(n1 + 3, fence as int));
        assert(s2.skip(j + 3) =~= v@.skip(fence + 3));
    }
    let raw = subvec_chars(&v, n1 + 3, fence);
    let n2_end = count_newlines_from(&v, fence + 3);
    let offset = n2_end;
    let raw_s = chars_to_string(&raw);
    let pairs = match parse_yaml_pairs(raw_s.as_str()) {
        Some(p) => p,
        None => {
            return Err(MarkdownError::ParseError);
        },
    };
    match FrontMatter::from_pairs(&pairs) {
        Ok(fm) => Ok((fm, offset)),
        Err(e) => Err(e),
    }
}

// ---------------------------------------------------------------------------
// The body: blocks separated by blank lines.
// ---------------------------------------------------------------------------
/// The whitespace characters that trimming removes.
pub open spec fn spec_is_whitespace(c: char) -> bool {
    ||| c == '\u{9}'
    ||| c == '\u{a}'
    ||| c == '\u{b}'
    ||| c == '\u{c}'
    ||| c == '\u{d}'
    ||| c == ' '
    ||| c == '\u{85}'
    ||| c == '\u{a0}'
    ||| c == '\u{1680}'
    ||| ('\u{2000}' <= c && c <= '\u{200a}')
    ||| c == '\u{2028}'
    ||| c == '\u{2029}'
    ||| c == '\u{202f}'
    ||| c == '\u{205f}'
    ||| c == '\u{3000}'
}

fn is_whitespace_char(c: char) -> (r: bool)
    ensures
        r == spec_is_whitespace(c),
{
    c == '\u{9}' || c == '\u{a}' || c == '\u{b}' || c == '\u{c}' || c == '\u{d}' || c == ' ' || c
        == '\u{85}' || c == '\u{a0}' || c == '\u{1680}' || ('\u{2000}' <= c && c <= '\u{200a}') || c
        == '\u{2028}' || c == '\u{2029}' || c == '\u{202f}' || c == '\u{205f}' || c == '\u{3000}'
}

/// The text with its leading whitespace removed.
pub open spec fn spec_trim_start(s: Seq<char>) -> Seq<char>
    decreases s.len(),
{
    if s.len() > 0 && spec_is_whitespace(s[0]) {
        spec_trim_start(s.skip(1))
    } else {
        s
    }
}

/// The text with its trailing whitespace removed.
pub open spec fn spec_trim_end(s: Seq<char>) -> Seq<char>
    decreases s.len(),
{
    if s.len() > 0 && spec_is_whitespace(s.last()) {
        spec_trim_end(s.drop_last())
    } else {
        s
    }
}

/// The text with whitespace removed from both ends.
pub open spec fn spec_trim(s: Seq<char>) -> Seq<char> {
    spec_trim_end(spec_trim_start(s))
}

/// Trim whitespace from both ends.
fn trim_chars(v: &Vec<char>) -> (r: Vec<char>)
    ensures
        r@ == spec_trim(v@),
{
    let n = v.len();
    let mut start: usize = 0;
    proof {
        assert(v@.skip(0) =~= v@);
    }
    while start < n && is_whitespace_char(v[start])
        invariant
            0 <= start <= n,
            n == v@.len(),
            spec_trim_start(v@) == spec_trim_start(v@.skip(start as int)),
        decreases n - start,
    {
        let ghost rest = v@.skip(start as int);
        proof {
            assert(rest[0] == v@[start as int]);
            assert(rest.skip(1) =~= v@.skip(start + 1));
        }
        start = start + 1;
    }
    proof {
        if start < n {
            assert(v@.skip(start as int)[0] == v@[start as int]);
        }
        assert(spec_trim_start(v@) == v@.skip(start as int));
    }
    let mut end: usize = n;
    let ghost st = v@.skip(start as int);
    while end > start && is_whitespace_char(v[end - 1])
        invariant
            start <= end <= n,
            n == v@.len(),
            st == v@.skip(start as int),
            spec_trim_end(st) == spec_trim_end(v@.subrange(start as int, end as int)),
        decreases end,
    {
        let ghost cur = v@.subrange(start as int, end as int);
        proof {
            assert(cur.last() == v@[end - 1]);
            assert(cur.drop_last() =~= v@.subrange(start as int, end - 1));
        }
        end = end - 1;
    }
    proof {
        assert(st =~= v@.subrange(start as int, n as int));
        let cur = v@.subrange(start as int, end as int);
        if end > start {
            assert(cur.last() == v@[end - 1]);
        }
        assert(spec_trim_end(st) == cur);
    }
    subvec_chars(v, start, end)
}

/// Splitting the body at blank lines, carrying the piece read so far.
/// Two consecutive newlines close a piece; anything shorter flows into it.
pub open spec fn spec_split_blank(s: Seq<char>, cur: Seq<char>) -> Seq<Seq<char>>
    decreases s.len(),
{
    if s.len() < 2 {
        seq![cur + s]
    } else if s[0] == '\n' && s[1] == '\n' {
        seq![cur] + spec_split_blank(s.skip(2), Seq::empty())
    } else {
        spec_split_blank(s.skip(1), cur.push(s[0]))
    }
}

/// Split a text at blank lines.
fn split_blank_chars(v: &Vec<char>) -> (r: Vec<Vec<char>>)
    ensures
        r.deep_view() == spec_split_blank(v@, Seq::empty()),
        r.len() >= 1,
{
    let n = v.len();
    let mut parts: Vec<Vec<char>> = Vec::new();
    let mut cur: Vec<char> = Vec::new();
    let mut i: usize = 0;
    proof {
        assert(v@.skip(0) =~= v@);
        assert(parts.deep_view() + spec_split_blank(v@, cur@) =~~= spec_split_blank(v@, cur@));
    }
    while n - i > 1
        invariant
            0 <= i <= n,
            n == v@.len(),
            spec_split_blank(v@, Seq::empty()) == parts.deep_view() + spec_split_blank(
                v@.skip(i as int),
                cur@,
            ),
        decreases n - i,
    {
        let ghost rest = v@.skip(i as int);
        proof {
            assert(rest.len() >= 2);
            assert(rest[0] == v@[i as int]);
            assert(rest[1] == v@[i + 1]);
            assert(rest.skip(1) =~= v@.skip(i + 1));
            assert(rest.skip(2) =~= v@.skip(i + 2));
        }
        if v[i] == '\n' && v[i + 1] == '\n' {
            let ghost parts0 = parts.deep_view();
            let ghost curv = cur@;
            parts.push(cur);
            cur = Vec::new();
            i = i + 2;
            proof {
                assert(cur@ =~= Seq::<char>::empty());
                assert(parts.deep_view() =~~= parts0.push(curv));
                assert(parts0.push(curv) + spec_split_blank(v@.skip(i as int), Seq::empty())
                    =~~= parts0 + (seq![curv] + spec_split_blank(v@.skip(i as int), Seq::empty())));
            }
        } else {
            cur.push(v[i]);
            i = i + 1;
        }
    }
    // Fewer than two characters remain: they flow into the final piece.
    let ghost rest = v@.skip(i as int);
    let ghost cur0 = cur@;
    proof {
        assert(rest.len() < 2);
        assert(spec_split_blank(rest, cur0) == seq![cur0 + rest]);
    }
    if i < n {
        cur.push(v[i]);
        proof {
            assert(rest =~= seq![v@[i as int]]);
            assert(cur@ =~= cur0 + rest);
        }
    } else {
        proof {
            assert(rest =~= Seq::<char>::empty());
            assert(cur@ =~= cur0 + rest);
        }
    }
    let ghost parts0 = parts.deep_view();
    let ghost curv = cur@;
    parts.push(cur);
    proof {
        assert(parts.deep_view() =~~= parts0.push(curv));
        assert(parts0.push(curv) =~~= parts0 + seq![curv]);
    }
    parts
}

// ---------------------------------------------------------------------------
// Inline tokens: code, bold, italic and links inside a block.
// ---------------------------------------------------------------------------
/// The index of the first occurrence of `c`.
pub open spec fn spec_find_char(s: Seq<char>, c: char) -> Option<int>
    decreases s.len(),
{
    if s.len() == 0 {
        None
    } else if s[0] == c {
        Some(0)
    } else {
        match spec_find_char(s.skip(1), c) {
            Some(i) => Some(i + 1),
            None => None,
        }
    }
}

/// An occurrence found by `spec_find_char` lies in range.
pub proof fn lemma_find_char_range(s: Seq<char>, c: char)
    ensures
        match spec_find_char(s, c) {
            Some(i) => 0 <= i < s.len() && s[i] == c,
            None => true,
        },
    decreases s.len(),
{
    if s.len() == 0 {
    } else if s[0] == c {
    } else {
        lemma_find_char_range(s.skip(1), c);
    }
}

/// Find the first occurrence of `c` in `v` at or after `from`.
fn find_char_from(v: &Vec<char>, from: usize, c: char) -> (r: Option<usize>)
    requires
        from <= v@.len(),
    ensures
        match (r, spec_find_char(v@.skip(from as int), c)) {
            (Some(i), Some(j)) => from + j == i && i < v@.len(),
            (None, None) => true,
            _ => false,
        },
    decreases v@.len() - from,
{
    if from == v.len() {
        return None;
    }
    let ghost rest = v@.skip(from as int);
    proof {
        assert(rest[0] == v@[from as int]);
        assert(rest.skip(1) =~= v@.skip(from + 1));
    }
    if v[from] == c {
        return Some(from);
    }
    match find_char_from(v, from + 1, c) {
        Some(i) => Some(i),
        None => None,
    }
}

/// A delimited inline span: the opening delimiter, the text up to the next
/// one, the closing delimiter.  Yields the inner text and the remainder.
pub open spec fn spec_nested_split(s: Seq<char>, d: char) -> Option<(Seq<char>, Seq<char>)> {
    if s.len() > 0 && s[0] == d {
        match spec_find_char(s.skip(1), d) {
            Some(j) => Some((s.skip(1).take(j), s.skip(j + 2))),
            None => None,
        }
    } else {
        None
    }
}

/// A delimited span is strictly inside the text.
pub proof fn lemma_nested_split_len(s: Seq<char>, d: char)
    ensures
        match spec_nested_split(s, d) {
            Some(p) => p.0.len() < s.len() && p.1.len() < s.len(),
            None => true,
        },
{
    if s.len() > 0 && s[0] == d {
        lemma_find_char_range(s.skip(1), d);
    }
}

/// A link tag: `[` text `](` url `)`.  Yields the text, the url and the
/// remainder.
pub open spec fn spec_link_split(s: Seq<char>) -> Option<((Seq<char>, Seq<char>), Seq<char>)> {
    if s.len() > 0 && s[0] == '[' {
        match spec_find_char(s.skip(1), ']') {
            Some(j) => {
                let content = s.skip(1).take(j);
                let s2 = s.skip(j + 2);
                if s2.len() > 0 && s2[0] == '(' {
                    match spec_find_char(s2.skip(1), ')') {
                        Some(k) => Some(((content, s2.skip(1).take(k)), s2.skip(k + 2))),
                        None => None,
                    }
                } else {
                    None
                }
            },
            None => None,
        }
    } else {
        None
    }
}

/// A link tag's remainder is strictly inside the text.
pub proof fn lemma_link_split_len(s: Seq<char>)
    ensures
        match spec_link_split(s) {
            Some(p) => p.1.len() < s.len(),
            None => true,
        },
{
    if s.len() > 0 && s[0] == '[' {
        lemma_find_char_range(s.skip(1), ']');
        match spec_find_char(s.skip(1), ']') {
            Some(j) => {
                let s2 = s.skip(j + 2);
                if s2.len() > 0 && s2[0] == '(' {
                    lemma_find_char_range(s2.skip(1), ')');
                }
            },
            None => {},
        }
    }
}

/// The pending literal, flushed as a token when it is nonempty.
pub open spec fn spec_flush(lit: Seq<char>) -> Seq<TokenModel> {
    if lit.len() > 0 {
        seq![TokenModel::Literal(lit)]
    } else {
        Seq::<TokenModel>::empty()
    }
}

/// The inline tokens of a block's text, with the literal read so far:
/// at each position try a code, bold or italic span, then a link tag;
/// anything else extends the pending literal.
pub open spec fn spec_parse_inner_acc(s: Seq<char>, lit: Seq<char>) -> Seq<TokenModel>
    decreases s.len(),
{
    if s.len() == 0 {
        spec_flush(lit)
    } else {
        match spec_nested_split(s, '`') {
            Some(ns) => {
                proof {
                    lemma_nested_split_len(s, '`');
                }
                spec_flush(lit) + seq![
                    TokenModel::Block(
                        BlockModel {
                            kind: "code"@,
                            tokens: spec_parse_inner_acc(ns.0, Seq::empty()),
                            meta: None,
                        },
                    ),
                ] + spec_parse_inner_acc(ns.1, Seq::empty())
            },
            None => match spec_nested_split(s, '*') {
                Some(ns) => {
                    proof {
                        lemma_nested_split_len(s, '*');
                    }
                    spec_flush(lit) + seq![
                        TokenModel::Block(
                            BlockModel {
                                kind: "b"@,
                                tokens: spec_parse_inner_acc(ns.0, Seq::empty()),
                                meta: None,
                            },
                        ),
                    ] + spec_parse_inner_acc(ns.1, Seq::empty())
                },
                None => match spec_nested_split(s, '_') {
                    Some(ns) => {
                        proof {
                            lemma_nested_split_len(s, '_');
                        }
                        spec_flush(lit) + seq![
                            TokenModel::Block(
                                BlockModel {
                                    kind: "i"@,
                                    tokens: spec_parse_inner_acc(ns.0, Seq::empty()),
                                    meta: None,
                                },
                            ),
                        ] + spec_parse_inner_acc(ns.1, Seq::empty())
                    },
                    None => match spec_link_split(s) {
                        Some(ls) => {
                            proof {
                                lemma_link_split_len(s);
                            }
                            spec_flush(lit) + seq![
                                TokenModel::Block(
                                    BlockModel {
                                        kind: "a"@,
                                        tokens: seq![TokenModel::Literal(ls.0.0)],
                                        meta: Some(seq![("href"@, ls.0.1)]),
                                    },
                                ),
                            ] + spec_parse_inner_acc(ls.1, Seq::empty())
                        },
                        None => spec_parse_inner_acc(s.skip(1), lit.push(s[0])),
                    },
                },
            },
        }
    }
}

/// The inline tokens of a block's text.
pub open spec fn spec_parse_inner(s: Seq<char>) -> Seq<TokenModel> {
    spec_parse_inner_acc(s, Seq::empty())
}

/// Try a delimited span at `pos`: on success return the inner text and
/// the position after the closing delimiter.
fn try_nested_at(v: &Vec<char>, pos: usize, d: char) -> (r: Option<(Vec<char>, usize)>)
    requires
        pos < v@.len(),
    ensures
        match (r, spec_nested_split(v@.skip(pos as int), d)) {
            (Some(p), Some(m)) => p.0@ == m.0 && v@.skip(p.1 as int) == m.1 && pos < p.1 <= v@.len(),
            (None, None) => true,
            _ => false,
        },
{
    let n = v.len();
    let ghost suffix = v@.skip(pos as int);
    proof {
        assert(suffix[0] == v@[pos as int]);
        assert(suffix.skip(1) =~= v@.skip(pos + 1));
    }
    if v[pos] != d {
        return None;
    }
    match find_char_from(v, pos + 1, d) {
        Some(close) => {
            proof {
                lemma_find_char_range(v@.skip(pos + 1), d);
            }
            let ghost j = close - (pos + 1);
            let inner = subvec_chars(v, pos + 1, close);
            proof {
                assert(inner@ =~= suffix.skip(1).take(j));
                assert(v@.skip(close + 1) =~= suffix.skip(j + 2));
            }
            Some((inner, close + 1))
        },
        None => None,
    }
}

/// Try a link tag at `pos`: on success return the text, the url and the
/// position after the closing parenthesis.
fn try_link_at(v: &Vec<char>, pos: usize) -> (r: Option<(Vec<char>, Vec<char>, usize)>)
    requires
        pos < v@.len(),
    ensures
        match (r, spec_link_split(v@.skip(pos as int))) {
            (Some(p), Some(m)) => p.0@ == m.0.0 && p.1@ == m.0.1 && v@.skip(p.2 as int) == m.1 && pos
                < p.2 <= v@.len(),
            (None, None) => true,
            _ => false,
        },
{
    let n = v.len();
    let ghost suffix = v@.skip(pos as int);
    proof {
        assert(suffix[0] == v@[pos as int]);
        assert(suffix.skip(1) =~= v@.skip(pos + 1));
    }
    if v[pos] != '[' {
        return None;
    }
    match find_char_from(v, pos + 1, ']') {
        Some(close) => {
            proof {
                lemma_find_char_range(v@.skip(pos + 1), ']');
            }
            let ghost j = close - (pos + 1);
            let content = subvec_chars(v, pos + 1, close);
            proof {
                assert(content@ =~= suffix.skip(1).take(j));
                assert(v@.skip(close + 1) =~= suffix.skip(j + 2));
            }
            let ghost s2 = suffix.skip(j + 2);
            if close + 1 == n {
                proof {
                    assert(s2.len() == 0);
                }
                return None;
            }
            proof {
                assert(s2[0] == v@[close + 1]);
                assert(s2.skip(1) =~= v@.skip(close + 2));
            }
            if v[close + 1] != '(' {
                return None;
            }
            match find_char_from(v, close + 2, ')') {
                Some(close2) => {
                    proof {
                        lemma_find_char_range(v@.skip(close + 2), ')');
                    }
                    let ghost k = close2 - (close + 2);
                    let url = subvec_chars(v, close + 2, close2);
                    proof {
                        assert(url@ =~= s2.skip(1).take(k));
                        assert(v@.skip(close2 + 1) =~= s2.skip(k + 2));
                    }
                    Some((content, url, close2 + 1))
                },
                None => None,
            }
        },
        None => None,
    }
}

/// Parse the inline tokens of a block's text.
fn parse_inner_chars(content: &Vec<char>) -> (r: Vec<Token>)
    ensures
        tokens_model(r@) == spec_parse_inner(content@),
    decreases content@.len(),
{
    let n = content.len();
    let mut result: Vec<Token> = Vec::new();
    let mut lit: Vec<char> = Vec::new();
    let mut pos: usize = 0;
    proof {
        assert(content@.skip(0) =~= content@);
        assert(tokens_model(result@) =~~= Seq::<TokenModel>::empty());
        assert(Seq::<TokenModel>::empty() + spec_parse_inner_acc(content@, lit@)
            =~~= spec_parse_inner_acc(content@, lit@));
    }
    while pos < n
        invariant
            0 <= pos <= n,
            n == content@.len(),
            spec_parse_inner(content@) == tokens_model(result@) + spec_parse_inner_acc(
                content@.skip(pos as int),
                lit@,
            ),
        decreases n - pos,
    {
        let ghost suffix = content@.skip(pos as int);
        let ghost mut step: TokenModel = TokenModel::Literal(Seq::empty());
        let mut taken: Option<(String, Vec<Token>, Option<Vec<(String, String)>>, usize)> = None;
        // One of the three delimited span kinds, or a link tag.
        match try_nested_at(content, pos, '`') {
            Some((inner, next)) => {
                proof {
                    lemma_nested_split_len(suffix, '`');
                }
                let toks = parse_inner_chars(&inner);
                proof {
                    step = TokenModel::Block(
                        BlockModel {
                            kind: "code"@,
                            tokens: spec_parse_inner_acc(inner@, Seq::empty()),
                            meta: None,
                        },
                    );
                    assert(spec_parse_inner_acc(suffix, lit@) == spec_flush(lit@) + seq![step]
                        + spec_parse_inner_acc(content@.skip(next as int), Seq::empty()));
                }
                taken = Some(("code".to_owned(), toks, None, next));
            },
            None => {
                match try_nested_at(content, pos, '*') {
                    Some((inner, next)) => {
                        proof {
                            lemma_nested_split_len(suffix, '*');
                        }
                        let toks = parse_inner_chars(&inner);
                        proof {
                            step = TokenModel::Block(
                                BlockModel {
                                    kind: "b"@,
                                    tokens: spec_parse_inner_acc(inner@, Seq::empty()),
                                    meta: None,
                                },
                            );
                            assert(spec_parse_inner_acc(suffix, lit@) == spec_flush(lit@) + seq![
                                step,
                            ] + spec_parse_inner_acc(content@.skip(next as int), Seq::empty()));
                        }
                        taken = Some(("b".to_owned(), toks, None, next));
                    },
                    None => {
                        match try_nested_at(content, pos, '_') {
                            Some((inner, next)) => {
                                proof {
                                    lemma_nested_split_len(suffix, '_');
                                }
                                let toks = parse_inner_chars(&inner);
                                proof {
                                    step = TokenModel::Block(
                                        BlockModel {
                                            kind: "i"@,
                                            tokens: spec_parse_inner_acc(inner@, Seq::empty()),
                                            meta: None,
                                        },
                                    );
                                    assert(spec_parse_inner_acc(suffix, lit@) == spec_flush(lit@)
                                        + seq![step] + spec_parse_inner_acc(
                                        content@.skip(next as int),
                                        Seq::empty(),
                                    ));
                                }
                                taken = Some(("i".to_owned(), toks, None, next));
                            },
                            None => {
                                match try_link_at(content, pos) {
                                    Some((text, url, next)) => {
                                        let mut toks: Vec<Token> = Vec::new();
                                        toks.push(Token::Literal(chars_to_string(&text)));
                                        let mut meta: Vec<(String, String)> = Vec::new();
                                        meta.push(("href".to_owned(), chars_to_string(&url)));
                                        proof {
                                            assert(tokens_model(toks@) =~~= seq![
                                                TokenModel::Literal(text@),
                                            ]) by {
                                                crate::common::lemma_tokens_model_push(
                                                    Seq::<Token>::empty(),
                                                    toks@[0],
                                                );
                                                assert(toks@ =~= Seq::<Token>::empty().push(
                                                    toks@[0],
                                                ));
                                                assert(tokens_model(Seq::<Token>::empty())
                                                    =~~= Seq::<TokenModel>::empty());
                                            }
                                            assert(crate::common::pairs_model(meta@) =~~= seq![
                                                ("href"@, url@),
                                            ]);
                                            step = TokenModel::Block(
                                                BlockModel {
                                                    kind: "a"@,
                                                    tokens: seq![TokenModel::Literal(text@)],
                                                    meta: Some(seq![("href"@, url@)]),
                                                },
                                            );
                                            assert(spec_parse_inner_acc(suffix, lit@)
                                                == spec_flush(lit@) + seq![step]
                                                + spec_parse_inner_acc(
                                                content@.skip(next as int),
                                                Seq::empty(),
                                            ));
                                        }
                                        taken = Some(("a".to_owned(), toks, Some(meta), next));
                                    },
                                    None => {},
                                }
                            },
                        }
                    },
                }
            },
        }
        match taken {
            Some((kind, toks, meta, next)) => {
                // Flush the pending literal, then push the span's block.
                let ghost result0 = tokens_model(result@);
                let ghost litv = lit@;
                if lit.len() > 0 {
                    let s = chars_to_string(&lit);
                    let ghost tsv = result@;
                    let tok = Token::Literal(s);
                    let ghost tokg = tok;
                    result.push(tok);
                    proof {
                        crate::common::lemma_tokens_model_push(tsv, tokg);
                        assert(token_model(tokg) == TokenModel::Literal(litv));
                    }
                    lit = Vec::new();
                }
                proof {
                    assert(tokens_model(result@) =~~= result0 + spec_flush(litv));
                }
                let ghost rv2 = tokens_model(result@);
                let block = Block { kind, tokens: toks, meta };
                let ghost bm = block_model(block);
                let tok = Token::Block(block);
                let ghost tm = token_model(tok);
                let ghost tsv = result@;
                let ghost tokg = tok;
                result.push(tok);
                proof {
                    crate::common::lemma_tokens_model_push(tsv, tokg);
                    assert(tokens_model(result@) =~~= rv2.push(tm));
                    assert(tm == step);
                    assert(rv2.push(step) =~~= rv2 + seq![step]);
                    assert(result0 + (spec_flush(litv) + seq![step] + spec_parse_inner_acc(
                        content@.skip(next as int),
                        Seq::empty(),
                    )) =~~= (result0 + spec_flush(litv) + seq![step]) + spec_parse_inner_acc(
                        content@.skip(next as int),
                        Seq::empty(),
                    ));
                }
                pos = next;
                proof {
                    assert(lit@ =~= Seq::<char>::empty());
                }
            },
            None => {
                proof {
                    assert(suffix[0] == content@[pos as int]);
                    assert(suffix.skip(1) =~= content@.skip(pos + 1));
                }
                lit.push(content[pos]);
                pos = pos + 1;
            },
        }
    }
    // End of the text: flush what remains of the literal.
    proof {
        assert(content@.skip(n as int).len() == 0);
    }
    if lit.len() > 0 {
        let ghost rv = tokens_model(result@);
        let ghost tsv = result@;
        let tok = Token::Literal(chars_to_string(&lit));
        let ghost tokg = tok;
        result.push(tok);
        proof {
            crate::common::lemma_tokens_model_push(tsv, tokg);
            assert(tokens_model(result@) =~~= rv + seq![token_model(tokg)]);
        }
    } else {
        proof {
            assert(tokens_model(result@) + Seq::<TokenModel>::empty() =~~= tokens_model(result@));
        }
    }
    result
}

// ---------------------------------------------------------------------------
// Blocks.
// ---------------------------------------------------------------------------
/// The first line terminator, as the custom-kind line scanner stops at a
/// newline or a carriage return.
pub open spec fn spec_find_line_end(s: Seq<char>) -> Option<int>
    decreases s.len(),
{
    if s.len() == 0 {
        None
    } else if s[0] == '\n' || s[0] == '\r' {
        Some(0)
    } else {
        match spec_find_line_end(s.skip(1)) {
            Some(i) => Some(i + 1),
            None => None,
        }
    }
}

/// A line terminator found lies in range.
pub proof fn lemma_find_line_end_range(s: Seq<char>)
    ensures
        match spec_find_line_end(s) {
            Some(i) => 0 <= i < s.len() && (s[i] == '\n' || s[i] == '\r'),
            None => true,
        },
    decreases s.len(),
{
    if s.len() == 0 {
    } else if s[0] == '\n' || s[0] == '\r' {
    } else {
        lemma_find_line_end_range(s.skip(1));
    }
}

/// Find the first line terminator at or after `from`.
fn find_line_end_from(v: &Vec<char>, from: usize) -> (r: Option<usize>)
    requires
        from <= v@.len(),
    ensures
        match (r, spec_find_line_end(v@.skip(from as int))) {
            (Some(i), Some(j)) => from + j == i && i < v@.len(),
            (None, None) => true,
            _ => false,
        },
    decreases v@.len() - from,
{
    if from == v.len() {
        return None;
    }
    let ghost rest = v@.skip(from as int);
    proof {
        assert(rest[0] == v@[from as int]);
        assert(rest.skip(1) =~= v@.skip(from + 1));
    }
    if v[from] == '\n' || v[from] == '\r' {
        return Some(from);
    }
    match find_line_end_from(v, from + 1) {
        Some(i) => Some(i),
        None => None,
    }
}

/// A block's declared kind: one to six hashes followed by a space name a
/// heading level, and `~:` names a custom kind running to the end of its
/// line.  The result carries how much of the text the declaration consumed.
pub open spec fn spec_parse_kind(s: Seq<char>) -> Option<(Seq<char>, int)> {
    if s.len() >= 2 && s[0] == '#' && s[1] == ' ' {
        Some(("h1"@, 2))
    } else if s.len() >= 3 && s[0] == '#' && s[1] == '#' && s[2] == ' ' {
        Some(("h2"@, 3))
    } else if s.len() >= 4 && s[0] == '#' && s[1] == '#' && s[2] == '#' && s[3] == ' ' {
        Some(("h3"@, 4))
    } else if s.len() >= 5 && s[0] == '#' && s[1] == '#' && s[2] == '#' && s[3] == '#' && s[4]
        == ' ' {
        Some(("h4"@, 5))
    } else if s.len() >= 6 && s[0] == '#' && s[1] == '#' && s[2] == '#' && s[3] == '#' && s[4]
        == '#' && s[5] == ' ' {
        Some(("h5"@, 6))
    } else if s.len() >= 7 && s[0] == '#' && s[1] == '#' && s[2] == '#' && s[3] == '#' && s[4]
        == '#' && s[5] == '#' && s[6] == ' ' {
        Some(("h6"@, 7))
    } else if s.len() >= 2 && s[0] == '~' && s[1] == ':' {
        match spec_find_line_end(s.skip(2)) {
            Some(t) => if s.skip(2)[t] == '\n' {
                Some((s.skip(2).take(t), 2 + t + 1))
            } else {
                None
            },
            None => None,
        }
    } else {
        None
    }
}

/// Parse a block's declared kind.
fn parse_kind_chars(v: &Vec<char>) -> (r: Option<(String, usize)>)
    ensures
        match (r, spec_parse_kind(v@)) {
            (Some(p), Some(m)) => p.0@ == m.0 && p.1 == m.1 && p.1 <= v@.len(),
            (None, None) => true,
            _ => false,
        },
{
    let n = v.len();
    if n >= 2 && v[0] == '#' && v[1] == ' ' {
        return Some(("h1".to_owned(), 2));
    }
    if n >= 3 && v[0] == '#' && v[1] == '#' && v[2] == ' ' {
        return Some(("h2".to_owned(), 3));
    }
    if n >= 4 && v[0] == '#' && v[1] == '#' && v[2] == '#' && v[3] == ' ' {
        return Some(("h3".to_owned(), 4));
    }
    if n >= 5 && v[0] == '#' && v[1] == '#' && v[2] == '#' && v[3] == '#' && v[4] == ' ' {
        return Some(("h4".to_owned(), 5));
    }
    if n >= 6 && v[0] == '#' && v[1] == '#' && v[2] == '#' && v[3] == '#' && v[4] == '#' && v[5]
        == ' ' {
        return Some(("h5".to_owned(), 6));
    }
    if n >= 7 && v[0] == '#' && v[1] == '#' && v[2] == '#' && v[3] == '#' && v[4] == '#' && v[5]
        == '#' && v[6] == ' ' {
        return Some(("h6".to_owned(), 7));
    }
    if n >= 2 && v[0] == '~' && v[1] == ':' {
        let ghost s2 = v@.skip(2);
        match find_line_end_from(v, 2) {
            Some(i) => {
                proof {
                    lemma_find_line_end_range(s2);
                    assert(s2[i - 2] == v@[i as int]);
                }
                if v[i] == '\n' {
                    let kind = subvec_chars(v, 2, i);
                    proof {
                        assert(kind@ =~= s2.take(i - 2));
                    }
                    return Some((chars_to_string(&kind), i + 1));
                } else {
                    return None;
                }
            },
            None => {
                return None;
            },
        }
    }
    None
}

/// One parsed block: its declared kind (a plain paragraph when none is
/// declared) and the inline tokens of the rest of its text.
pub open spec fn spec_parse_block(s: Seq<char>) -> BlockModel {
    match spec_parse_kind(s) {
        Some(p) => BlockModel { kind: p.0, tokens: spec_parse_inner(s.skip(p.1)), meta: None },
        None => BlockModel { kind: "p"@, tokens: spec_parse_inner(s), meta: None },
    }
}

/// Parse a single chunk of text into a block.
fn parse_block_chars(v: &Vec<char>) -> (r: Block)
    ensures
        block_model(r) == spec_parse_block(v@),
{
    match parse_kind_chars(v) {
        Some((kind, used)) => {
            let rest = subvec_chars(v, used, v.len());
            proof {
                assert(rest@ =~= v@.skip(used as int));
            }
            let tokens = parse_inner_chars(&rest);
            Block { kind, tokens, meta: None }
        },
        None => {
            let tokens = parse_inner_chars(v);
            Block { kind: "p".to_owned(), tokens, meta: None }
        },
    }
}

/// The blocks of a body: trim it, split it at blank lines, parse each
/// piece.
pub open spec fn spec_parse_blocks(s: Seq<char>) -> Seq<BlockModel> {
    spec_split_blank(spec_trim(s), Seq::empty()).map_values(|p: Seq<char>| spec_parse_block(p))
}

/// Parse a body held as characters.
fn parse_blocks_chars(v: &Vec<char>) -> (r: Vec<Block>)
    ensures
        blocks_model(r@) == spec_parse_blocks(v@),
{
    let t = trim_chars(v);
    let pieces = split_blank_chars(&t);
    let ghost pm = pieces.deep_view().map_values(|p: Seq<char>| spec_parse_block(p));
    let mut r: Vec<Block> = Vec::new();
    proof {
        assert(blocks_model(r@) =~~= pm.subrange(0, 0));
    }
    for i in 0..pieces.len()
        invariant
            pm == pieces.deep_view().map_values(|p: Seq<char>| spec_parse_block(p)),
            pieces.deep_view().len() == pieces.len(),
            blocks_model(r@) == pm.subrange(0, i as int),
    {
        let b = parse_block_chars(&pieces[i]);
        let ghost rv = r@;
        let ghost bg = b;
        r.push(b);
        proof {
            crate::common::lemma_blocks_model_push(rv, bg);
            assert(pm.subrange(0, i as int).push(block_model(bg)) =~~= pm.subrange(0, i + 1));
        }
    }
    proof {
        assert(pm.subrange(0, pm.len() as int) =~~= pm);
        assert(blocks_model(r@) =~~= spec_parse_blocks(v@));
    }
    r
}

/// Parse the body of a post into blocks.
pub fn parse_blocks(contents: &str) -> (r: Vec<Block>)
    ensures
        blocks_model(r@) == spec_parse_blocks(contents@),
{
    let v = str_to_chars(contents);
    parse_blocks_chars(&v)
}

/// Parse the body of a post into blocks.
pub fn parse_body(input: &str) -> (r: Vec<Block>)
    ensures
        blocks_model(r@) == spec_parse_blocks(input@),
{
    parse_blocks(input)
}

/// Parse the inline tokens of one chunk of text.
pub fn parse_inner(content: &str) -> (r: Vec<Token>)
    ensures
        tokens_model(r@) == spec_parse_inner(content@),
{
    let v = str_to_chars(content);
    parse_inner_chars(&v)
}

/// A whole parsed artifact: the frontmatter section, then the body.
pub open spec fn spec_parse(s: Seq<char>) -> Option<MarkdownModel> {
    match spec_parse_frontmatter(s) {
        Some(p) => Some(
            MarkdownModel { frontmatter: p.0, blocks: spec_parse_blocks(s.skip(p.1)) },
        ),
        None => None,
    }
}

/// Parse a whole artifact from the contents of a content file.
pub fn parse(contents: &str) -> (r: Result<Markdown, MarkdownError>)
    ensures
        match (r, spec_parse(contents@)) {
            (Ok(m), Some(mm)) => markdown_model(m) == mm,
            (Err(e), None) => e == MarkdownError::ParseError,
            _ => false,
        },
{
    let (frontmatter, offset) = match parse_frontmatter(contents) {
        Ok(p) => p,
        Err(e) => {
            return Err(MarkdownError::ParseError);
        },
    };
    let v = str_to_chars(contents);
    let rest = subvec_chars(&v, offset, v.len());
    proof {
        assert(rest@ =~= contents@.skip(offset as int));
    }
    let blocks = parse_blocks_chars(&rest);
    Ok(Markdown { frontmatter, blocks })
}

} // verus!
