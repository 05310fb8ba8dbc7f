//! Slugs, content digests and the ceiling division used by pagination.

use vstd::prelude::*;

verus! {

use crate::text::{chars_to_string, push_char, str_to_chars};

/// What `str::to_lowercase` returns for a given character sequence.
pub uninterp spec fn lower_of(s: Seq<char>) -> Seq<char>;

/// What `seahash::hash` returns for a given byte sequence.  SeaHash documents
/// its output as portable and stable, so the digest is a function of the
/// bytes alone.
pub uninterp spec fn seahash_of(b: Seq<u8>) -> u64;

/// Relies on `str::to_lowercase`: the result depends on the characters alone.
#[verifier::external_body]
fn lowercase(s: &str) -> (r: String)
    ensures
        r@ == lower_of(s@),
        s@.len() == 0 ==> r@.len() == 0,
{
    s.to_lowercase()
}

/// Relies on `seahash::hash`: a stable, portable 64-bit digest of the bytes.
#[verifier::external_body]
pub(crate) fn hash_bytes(bytes: &[u8]) -> (r: u64)
    ensures
        r == seahash_of(bytes@),
{
    seahash::hash(bytes)
}

/// The content digest the cache keys on.
pub fn content_digest(bytes: &[u8]) -> (r: u64)
    ensures
        r == seahash_of(bytes@),
{
    hash_bytes(bytes)
}

/// How one character of a slug is produced: spaces and underscores become
/// dashes, ASCII alphanumerics stay, everything else is dropped.
pub open spec fn spec_slug_char(c: char) -> Option<char> {
    if c == ' ' || c == '_' {
        Some('-')
    } else if is_ascii_alphanumeric(c) {
        Some(c)
    } else {
        None
    }
}

pub open spec fn is_ascii_alphanumeric(c: char) -> bool {
    ('a' <= c && c <= 'z') || ('A' <= c && c <= 'Z') || ('0' <= c && c <= '9')
}

/// The slug of an already lowercased character sequence.
pub open spec fn spec_slug_chars(s: Seq<char>) -> Seq<char>
    decreases s.len(),
{
    if s.len() == 0 {
        Seq::empty()
    } else {
        match spec_slug_char(s[0]) {
            Some(c) => seq![c] + spec_slug_chars(s.skip(1)),
            None => spec_slug_chars(s.skip(1)),
        }
    }
}

/// The slug of an arbitrary string: lowercase first, then keep only slug
/// characters.
pub open spec fn spec_slugify(s: Seq<char>) -> Seq<char> {
    spec_slug_chars(lower_of(s))
}

fn slug_char(c: char) -> (r: Option<char>)
    ensures
        r == spec_slug_char(c),
{
    if c == ' ' || c == '_' {
        Some('-')
    } else if ('a' <= c && c <= 'z') || ('A' <= c && c <= 'Z') || ('0' <= c && c <= '9') {
        Some(c)
    } else {
        None
    }
}

/// Turn a string into a slug: lowercase it, map spaces and underscores to
/// dashes, keep ASCII alphanumerics and drop every other character.
pub fn slugify(s: &str) -> (r: String)
    ensures
        r@ == spec_slugify(s@),
{
    let lower = lowercase(s);
    let chars = str_to_chars(lower.as_str());
    let slug = slug_of_chars(&chars);
    chars_to_string(&slug)
}

/// The slug of a character vector that is already lowercased.
pub fn slug_of_chars(chars: &Vec<char>) -> (r: Vec<char>)
    ensures
        r@ == spec_slug_chars(chars@),
{
    let mut r: Vec<char> = Vec::new();
    proof {
        assert(chars@.skip(0) =~= chars@);
    }
    for i in 0..chars.len()
        invariant
            spec_slug_chars(chars@) == r@ + spec_slug_chars(chars@.skip(i as int)),
    {
        proof {
            let rest = chars@.skip(i as int);
            assert(rest[0] == chars@[i as int]);
            assert(rest.skip(1) =~= chars@.skip(i + 1));
            match spec_slug_char(chars@[i as int]) {
                Some(c) => {
                    assert(spec_slug_chars(rest) == seq![c] + spec_slug_chars(
                        chars@.skip(i + 1),
                    ));
                    assert(r@ + spec_slug_chars(rest) =~= r@.push(c) + spec_slug_chars(
                        chars@.skip(i + 1),
                    ));
                },
                None => {
                    assert(spec_slug_chars(rest) == spec_slug_chars(chars@.skip(i + 1)));
                },
            }
        }
        match slug_char(chars[i]) {
            Some(c) => { r.push(c); },
            None => {},
        }
    }
    proof {
        assert(chars@.skip(chars@.len() as int) =~= Seq::<char>::empty());
        assert(r@ + Seq::<char>::empty() =~= r@);
    }
    r
}

/// The slug of a character vector.
pub fn slugify_chars(v: &Vec<char>) -> (r: Vec<char>)
    ensures
        r@ == spec_slugify(v@),
{
    let s = chars_to_string(v);
    let slug = slugify(s.as_str());
    str_to_chars(slug.as_str())
}

/// One hex digit, lower case.
pub open spec fn spec_hex_digit(n: u64) -> char {
    seq!['0', '1', '2', '3', '4', '5', '6', '7', '8', '9', 'a', 'b', 'c', 'd', 'e', 'f'][(
    n & 0xf) as int]
}

/// The 16 hex digits of a 64-bit digest, most significant nibble first.
pub open spec fn spec_hex_u64(n: u64) -> Seq<char> {
    Seq::new(16, |i: int| spec_hex_digit(n >> ((15 - i) * 4)))
}

/// Write a 64-bit digest as 16 lower-case hex digits.
pub fn stringify_hash(n: u64) -> (r: String)
    ensures
        r@ == spec_hex_u64(n),
{
    let digits: [char; 16] = [
        '0',
        '1',
        '2',
        '3',
        '4',
        '5',
        '6',
        '7',
        '8',
        '9',
        'a',
        'b',
        'c',
        'd',
        'e',
        'f',
    ];
    let mut r = String::new();
    let mut i: usize = 0;
    while i < 16
        invariant
            0 <= i <= 16,
            digits@ =~= seq![
                '0',
                '1',
                '2',
                '3',
                '4',
                '5',
                '6',
                '7',
                '8',
                '9',
                'a',
                'b',
                'c',
                'd',
                'e',
                'f',
            ],
            r@ =~= Seq::new(i as nat, |j: int| spec_hex_digit(n >> ((15 - j) * 4))),
        decreases 16 - i,
    {
        let shift: u64 = (15 - i as u64) * 4;
        let nib: u64 = (n >> shift) & 0xf;
        assert((n >> shift) & 0xf < 16) by (bit_vector);
        push_char(&mut r, digits[nib as usize]);
        i = i + 1;
    }
    proof {
        assert(r@ =~= spec_hex_u64(n));
    }
    r
}

/// Hash the given `bytes` and render the digest as 16 hex characters.
pub fn hash(bytes: &[u8]) -> (r: String)
    ensures
        r@ == spec_hex_u64(seahash_of(bytes@)),
{
    stringify_hash(hash_bytes(bytes))
}

/// Ceiling division on bytes, as used by listing pagination.
pub fn divide_round_up(dividend: u8, divisor: u8) -> (r: u8)
    requires
        divisor > 0,
        dividend + divisor - 1 <= u8::MAX,
    ensures
        r == (dividend + divisor - 1) / (divisor as int),
        r * divisor >= dividend,
        (r - 1) * divisor < dividend || r == 0,
{
    let wide: u16 = (dividend as u16 + divisor as u16 - 1) / (divisor as u16);
    let r = wide as u8;
    proof {
        let d = dividend as int;
        let q = divisor as int;
        assert(r == (d + q - 1) / q);
        assert(r * q >= d && ((r - 1) * q < d || r == 0)) by (nonlinear_arith)
            requires
                q > 0,
                d >= 0,
                r == (d + q - 1) / q,
        ;
    }
    r
}

} // verus!
