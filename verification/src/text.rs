//! Character-level helpers shared by the route, parser and rendering logic.
//!
//! Executable code works on `Vec<char>` so that every step is visible to the
//! verifier; the two conversions to and from `String` are the only trusted
//! pieces here.

use vstd::prelude::*;

verus! {

use vstd::string::StrSliceExecFns;

/// Relies on `String::push`: appends one character at the end.
#[verifier::external_body]
pub(crate) fn push_char(s: &mut String, c: char)
    ensures
        final(s)@ == old(s)@.push(c),
{
    s.push(c);
}

/// Collect the characters of a string slice into a vector.
pub fn str_to_chars(s: &str) -> (r: Vec<char>)
    ensures
        r@ == s@,
{
    let n = s.unicode_len();
    let mut r: Vec<char> = Vec::new();
    for i in 0..n
        invariant
            n == s@.len(),
            r@ =~= s@.subrange(0, i as int),
    {
        r.push(s.get_char(i));
    }
    proof {
        assert(r@ =~= s@);
    }
    r
}

/// For character vectors the deep view and the plain view agree.
pub broadcast proof fn lemma_chars_deep_view(v: Vec<char>)
    ensures
        #[trigger] v.deep_view() == v@,
{
    assert(v.deep_view() =~= v@);
}

/// Character-for-character equality of two vectors.
pub fn chars_eq(a: &Vec<char>, b: &Vec<char>) -> (r: bool)
    ensures
        r == (a@ == b@),
{
    if a.len() != b.len() {
        proof {
            assert(a@.len() != b@.len());
        }
        return false;
    }
    for i in 0..a.len()
        invariant
            a@.len() == b@.len(),
            forall|j: int| 0 <= j < i ==> a@[j] == b@[j],
    {
        if a[i] != b[i] {
            return false;
        }
    }
    proof {
        assert(a@ =~= b@);
    }
    true
}

/// Whether `prefix` opens `s`.
pub open spec fn spec_starts_with(s: Seq<char>, prefix: Seq<char>) -> bool {
    s.len() >= prefix.len() && s.take(prefix.len() as int) == prefix
}

/// Test whether a string slice starts with another.
pub fn str_starts_with(s: &str, prefix: &str) -> (r: bool)
    ensures
        r == spec_starts_with(s@, prefix@),
{
    let sv = str_to_chars(s);
    let pv = str_to_chars(prefix);
    if sv.len() < pv.len() {
        return false;
    }
    for i in 0..pv.len()
        invariant
            sv@ == s@,
            pv@ == prefix@,
            pv@.len() <= sv@.len(),
            forall|j: int| 0 <= j < i ==> sv@[j] == pv@[j],
    {
        if sv[i] != pv[i] {
            proof {
                assert(s@.take(prefix@.len() as int)[i as int] == sv@[i as int]);
            }
            return false;
        }
    }
    proof {
        assert(s@.take(prefix@.len() as int) =~= prefix@);
    }
    true
}

/// Character-for-character equality of two string slices.
pub fn str_eq(a: &str, b: &str) -> (r: bool)
    ensures
        r == (a@ == b@),
{
    let av = str_to_chars(a);
    let bv = str_to_chars(b);
    chars_eq(&av, &bv)
}

/// Equality of a character vector against a string slice.
pub fn chars_eq_str(a: &Vec<char>, s: &str) -> (r: bool)
    ensures
        r == (a@ == s@),
{
    let b = str_to_chars(s);
    chars_eq(a, &b)
}

/// Append every character of `part` to `r`.
pub fn extend_chars(r: &mut Vec<char>, part: &Vec<char>)
    ensures
        final(r)@ == old(r)@ + part@,
{
    let ghost r0 = r@;
    for i in 0..part.len()
        invariant
            r@ =~= r0 + part@.subrange(0, i as int),
    {
        r.push(part[i]);
    }
    proof {
        assert(r@ =~= r0 + part@);
    }
}

/// Splitting a character sequence at a separator, carrying the piece read so
/// far: the view of what a left-to-right scan produces.
pub open spec fn spec_split_acc(s: Seq<char>, sep: char, cur: Seq<char>) -> Seq<Seq<char>>
    decreases s.len(),
{
    if s.len() == 0 {
        seq![cur]
    } else if s[0] == sep {
        seq![cur] + spec_split_acc(s.skip(1), sep, Seq::empty())
    } else {
        spec_split_acc(s.skip(1), sep, cur.push(s[0]))
    }
}

/// The pieces of `s` between occurrences of `sep`; always at least one piece.
pub open spec fn spec_split(s: Seq<char>, sep: char) -> Seq<Seq<char>> {
    spec_split_acc(s, sep, Seq::empty())
}

/// Split a character vector at every occurrence of `sep`.
pub fn split_chars(v: &Vec<char>, sep: char) -> (r: Vec<Vec<char>>)
    ensures
        r.deep_view() == spec_split(v@, sep),
        r.len() >= 1,
{
    let mut parts: Vec<Vec<char>> = Vec::new();
    let mut cur: Vec<char> = Vec::new();
    proof {
        assert(v@.skip(0) =~= v@);
        assert(parts.deep_view() =~= Seq::<Seq<char>>::empty());
        assert(Seq::<Seq<char>>::empty() + spec_split_acc(v@, sep, cur@) =~= spec_split_acc(
            v@,
            sep,
            cur@,
        ));
    }
    for i in 0..v.len()
        invariant
            spec_split(v@, sep) == parts.deep_view() + spec_split_acc(
                v@.skip(i as int),
                sep,
                cur@,
            ),
    {
        let ghost rest = v@.skip(i as int);
        proof {
            assert(rest[0] == v@[i as int]);
            assert(rest.skip(1) =~= v@.skip(i + 1));
        }
        if v[i] == sep {
            let ghost parts0 = parts.deep_view();
            let ghost curv = cur@;
            proof {
                assert(spec_split_acc(rest, sep, curv) == seq![curv] + spec_split_acc(
                    v@.skip(i + 1),
                    sep,
                    Seq::empty(),
                ));
            }
            parts.push(cur);
            cur = Vec::new();
            proof {
                assert(cur@ =~= Seq::<char>::empty());
                assert(parts.deep_view() =~~= parts0.push(curv));
                assert(parts0.push(curv) + spec_split_acc(v@.skip(i + 1), sep, Seq::empty())
                    =~= parts0 + (seq![curv] + spec_split_acc(v@.skip(i + 1), sep, Seq::empty())));
            }
        } else {
            proof {
                assert(spec_split_acc(rest, sep, cur@) == spec_split_acc(
                    v@.skip(i + 1),
                    sep,
                    cur@.push(v@[i as int]),
                ));
            }
            cur.push(v[i]);
        }
    }
    proof {
        assert(v@.skip(v@.len() as int) =~= Seq::<char>::empty());
        assert(spec_split_acc(Seq::<char>::empty(), sep, cur@) == seq![cur@]);
    }
    let ghost parts0 = parts.deep_view();
    let ghost curv = cur@;
    parts.push(cur);
    proof {
        assert(parts.deep_view() =~~= parts0.push(curv));
        assert(parts0 + seq![curv] =~= parts0.push(curv));
    }
    parts
}

/// The pieces joined back together with `sep` between them.
pub open spec fn spec_join(parts: Seq<Seq<char>>, sep: char) -> Seq<char>
    decreases parts.len(),
{
    if parts.len() == 0 {
        Seq::empty()
    } else if parts.len() == 1 {
        parts[0]
    } else {
        parts[0] + seq![sep] + spec_join(parts.drop_first(), sep)
    }
}

/// Joining one more piece on the right.
pub proof fn lemma_join_push(parts: Seq<Seq<char>>, sep: char, last: Seq<char>)
    ensures
        spec_join(parts.push(last), sep) == if parts.len() == 0 {
            last
        } else {
            spec_join(parts, sep) + seq![sep] + last
        },
    decreases parts.len(),
{
    if parts.len() == 0 {
        assert(parts.push(last).len() == 1);
        assert(parts.push(last)[0] == last);
    } else if parts.len() == 1 {
        let p = parts.push(last);
        assert(p.len() == 2);
        assert(p[0] == parts[0]);
        assert(p.drop_first() =~= seq![last]);
        assert(spec_join(p.drop_first(), sep) == last);
        assert(spec_join(p, sep) == parts[0] + seq![sep] + last);
        assert(spec_join(parts, sep) == parts[0]);
    } else {
        let p = parts.push(last);
        assert(p.drop_first() =~= parts.drop_first().push(last));
        lemma_join_push(parts.drop_first(), sep, last);
        assert(spec_join(p, sep) == p[0] + seq![sep] + spec_join(parts.drop_first().push(last), sep));
        assert(p[0] == parts[0]);
        assert(parts[0] + seq![sep] + (spec_join(parts.drop_first(), sep) + seq![sep] + last) =~= (
        parts[0] + seq![sep] + spec_join(parts.drop_first(), sep)) + seq![sep] + last);
    }
}

/// Join the pieces with `sep` between them.
pub fn join_chars(parts: &Vec<Vec<char>>, sep: char) -> (r: Vec<char>)
    ensures
        r@ == spec_join(parts.deep_view(), sep),
{
    let mut r: Vec<char> = Vec::new();
    proof {
        assert(parts.deep_view().subrange(0, 0) =~= Seq::<Seq<char>>::empty());
    }
    for i in 0..parts.len()
        invariant
            r@ == spec_join(parts.deep_view().subrange(0, i as int), sep),
            parts.deep_view().len() == parts.len(),
    {
        let ghost prefix = parts.deep_view().subrange(0, i as int);
        proof {
            assert(parts.deep_view().subrange(0, i + 1) =~= prefix.push(parts@[i as int].deep_view()));
            lemma_join_push(prefix, sep, parts@[i as int].deep_view());
        }
        if i > 0 {
            r.push(sep);
        }
        extend_chars(&mut r, &parts[i]);
        proof {
            if i == 0 {
                assert(r@ =~= parts@[0].deep_view());
            } else {
                assert(r@ =~= spec_join(prefix, sep) + seq![sep] + parts@[i as int].deep_view());
            }
        }
    }
    proof {
        assert(parts.deep_view().subrange(0, parts.deep_view().len() as int) =~= parts.deep_view());
    }
    r
}

/// Copy the characters of `v` between `from` and `to`.
pub fn subvec_chars(v: &Vec<char>, from: usize, to: usize) -> (r: Vec<char>)
    requires
        from <= to <= v@.len(),
    ensures
        r@ == v@.subrange(from as int, to as int),
{
    let mut r: Vec<char> = Vec::new();
    for i in from..to
        invariant
            from <= i <= to <= v@.len(),
            r@ =~= v@.subrange(from as int, i as int),
    {
        r.push(v[i]);
    }
    proof {
        assert(r@ =~= v@.subrange(from as int, to as int));
    }
    r
}

/// The index of the last occurrence of `c` in `s`.
pub open spec fn spec_rfind(s: Seq<char>, c: char) -> Option<int>
    decreases s.len(),
{
    if s.len() == 0 {
        None
    } else if s.last() == c {
        Some(s.len() - 1)
    } else {
        spec_rfind(s.drop_last(), c)
    }
}

/// Find the last occurrence of `c` in `v`.
pub fn rfind_char(v: &Vec<char>, c: char) -> (r: Option<usize>)
    ensures
        match r {
            Some(i) => i < v@.len() && spec_rfind(v@, c) == Some(i as int),
            None => spec_rfind(v@, c) is None,
        },
{
    let mut i = v.len();
    proof {
        assert(v@.take(v@.len() as int) =~= v@);
    }
    while i > 0
        invariant
            0 <= i <= v@.len(),
            spec_rfind(v@, c) == spec_rfind(v@.take(i as int), c),
        decreases i,
    {
        let ghost pre = v@.take(i as int);
        proof {
            assert(pre.last() == v@[i - 1]);
            assert(pre.drop_last() =~= v@.take(i - 1));
        }
        if v[i - 1] == c {
            proof {
                assert(spec_rfind(pre, c) == Some(i - 1));
            }
            return Some(i - 1);
        }
        i = i - 1;
    }
    proof {
        assert(v@.take(0) =~= Seq::<char>::empty());
    }
    None
}

/// One decimal digit as a character.
pub open spec fn spec_decimal_digit(d: int) -> char {
    seq!['0', '1', '2', '3', '4', '5', '6', '7', '8', '9'][d]
}

/// The decimal writing of a nonnegative number, most significant digit
/// first.
pub open spec fn spec_decimal(n: int) -> Seq<char>
    decreases n,
{
    if n < 10 {
        seq![spec_decimal_digit(if n >= 0 {
            n
        } else {
            0
        })]
    } else {
        spec_decimal(n / 10).push(spec_decimal_digit(n % 10))
    }
}

fn decimal_digit(d: usize) -> (r: char)
    requires
        d < 10,
    ensures
        r == spec_decimal_digit(d as int),
{
    let digits: [char; 10] = ['0', '1', '2', '3', '4', '5', '6', '7', '8', '9'];
    proof {
        assert(digits@ =~= seq!['0', '1', '2', '3', '4', '5', '6', '7', '8', '9']);
    }
    digits[d]
}

/// Write a number in decimal.
pub fn usize_to_string(n: usize) -> (r: String)
    ensures
        r@ == spec_decimal(n as int),
    decreases n,
{
    if n < 10 {
        let mut r = String::new();
        push_char(&mut r, decimal_digit(n));
        proof {
            assert(r@ =~= seq![spec_decimal_digit(n as int)]);
        }
        r
    } else {
        let mut r = usize_to_string(n / 10);
        push_char(&mut r, decimal_digit(n % 10));
        r
    }
}

/// Build a `String` out of a vector of characters.
pub fn chars_to_string(v: &Vec<char>) -> (r: String)
    ensures
        r@ == v@,
{
    let mut r = String::new();
    for i in 0..v.len()
        invariant
            r@ =~= v@.subrange(0, i as int),
    {
        push_char(&mut r, v[i]);
    }
    proof {
        assert(r@ =~= v@);
    }
    r
}

} // verus!
