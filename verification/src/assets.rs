//! Static-asset support: collecting the CSS class names that templates and
//! pages use, and cache-busted asset names.
//!
//! Rendering the stylesheet and copying asset files happen outside the
//! library.

use vstd::prelude::*;

verus! {

use crate::common::{spec_ext_of_name, spec_last_segment, spec_stem_of_name, strings_model};
use crate::text::{
    chars_eq_str,
    chars_to_string,
    extend_chars,
    rfind_char,
    split_chars,
    str_eq,
    str_to_chars,
    subvec_chars,
};

broadcast use crate::text::lemma_chars_deep_view;

/// Errors of the stylesheet pipeline.  The pipeline itself runs outside
/// the library and currently reports none; the single variant stands in
/// for failures it may grow.
pub enum StyleError {
    StylesheetFailure,
}

/// The alias under which the generated stylesheet is mapped.
pub const TAILWIND_FILENAME: &'static str = "tw.css";

/// The attribute pattern whose first group holds an element's class list.
pub const CLASS_ATTR_PATTERN: &'static str = "(?:class|className)=(?:[\"]\\W+\\s*(?:\\w+)\\()?[\"]([^\"]+)[\"]";

/// Alias to cache-busted filename.
pub type AssetMap = Vec<(String, String)>;

/// What the class-attribute pattern captures in a text: the first group
/// of each match, in match order; absent when the pattern does not
/// compile.  A regular expression match is a function of the pattern and
/// the text alone.
pub uninterp spec fn regex_captures_of(pattern: Seq<char>, text: Seq<char>) -> Option<
    Seq<Seq<char>>,
>;

/// Relies on `regex::Regex::new` and `Regex::captures_iter`: compiling and
/// matching are functions of the pattern and the text alone.
#[verifier::external_body]
fn regex_capture1(pattern: &str, text: &str) -> (r: Option<Vec<String>>)
    ensures
        match (r, regex_captures_of(pattern@, text@)) {
            (Some(v), Some(m)) => strings_model(v@) == m,
            (None, None) => true,
            _ => false,
        },
{
    let re = match regex::Regex::new(pattern) {
        Ok(re) => re,
        Err(_) => return None,
    };
    let mut out: Vec<String> = Vec::new();
    for caps in re.captures_iter(text) {
        if let Some(group) = caps.get(1) {
            out.push(group.as_str().to_string());
        }
    }
    Some(out)
}

/// The collected class names, each kept once.
pub struct ClassCollector(pub Vec<String>);

impl ClassCollector {
    /// The set of collected names, in insertion order.
    pub open spec fn classes(self) -> Seq<Seq<char>> {
        strings_model(self.0@)
    }

    /// Each name occurs once.
    pub open spec fn wf(self) -> bool {
        forall|i: int, j: int|
            0 <= i < j < self.classes().len() ==> self.classes()[i] != self.classes()[j]
    }

    /// An empty collector.
    pub fn new() -> (r: ClassCollector)
        ensures
            r.classes() =~= Seq::<Seq<char>>::empty(),
            r.wf(),
    {
        ClassCollector(Vec::new())
    }

    /// Add a class name, keeping the set free of duplicates.
    pub fn insert(&mut self, class: String)
        requires
            old(self).wf(),
        ensures
            final(self).classes() == spec_insert_class(old(self).classes(), class@),
            final(self).wf(),
    {
        let n = self.0.len();
        for i in 0..n
            invariant
                n == self.0.len(),
                forall|j: int| 0 <= j < i ==> self.classes()[j] != class@,
                self.0@ == old(self).0@,
                old(self).wf(),
        {
            if str_eq(self.0[i].as_str(), class.as_str()) {
                proof {
                    assert(self.classes()[i as int] == class@);
                    assert(spec_contains_class(self.classes(), class@));
                }
                return ;
            }
        }
        proof {
            assert(!spec_contains_class(self.classes(), class@));
        }
        let ghost before = self.classes();
        self.0.push(class);
        proof {
            assert(self.classes() =~= before.push(class@));
        }
    }
}

/// Whether a set of class names already holds one.
pub open spec fn spec_contains_class(set: Seq<Seq<char>>, c: Seq<char>) -> bool {
    exists|i: int| 0 <= i < set.len() && set[i] == c
}

/// Adding one class name to the set.
pub open spec fn spec_insert_class(set: Seq<Seq<char>>, c: Seq<char>) -> Seq<Seq<char>> {
    if spec_contains_class(set, c) {
        set
    } else {
        set.push(c)
    }
}

/// A class-list capture split at spaces and newlines, carrying the piece
/// read so far.
pub open spec fn spec_split_classes(s: Seq<char>, cur: Seq<char>) -> Seq<Seq<char>>
    decreases s.len(),
{
    if s.len() == 0 {
        seq![cur]
    } else if s[0] == ' ' || s[0] == '\n' {
        seq![cur] + spec_split_classes(s.skip(1), Seq::empty())
    } else {
        spec_split_classes(s.skip(1), cur.push(s[0]))
    }
}

/// Which pieces of a class list are collected: nonempty ones that are not
/// the `group` and `peer` markers.
pub open spec fn spec_keep_class(c: Seq<char>) -> bool {
    c.len() > 0 && c != "group"@ && c != "peer"@
}

/// Folding the pieces of one capture into the set.
pub open spec fn spec_add_pieces(set: Seq<Seq<char>>, pieces: Seq<Seq<char>>) -> Seq<Seq<char>>
    decreases pieces.len(),
{
    if pieces.len() == 0 {
        set
    } else {
        spec_add_pieces(
            if spec_keep_class(pieces[0]) {
                spec_insert_class(set, pieces[0])
            } else {
                set
            },
            pieces.drop_first(),
        )
    }
}

/// Folding every capture into the set.
pub open spec fn spec_add_captures(set: Seq<Seq<char>>, caps: Seq<Seq<char>>) -> Seq<Seq<char>>
    decreases caps.len(),
{
    if caps.len() == 0 {
        set
    } else {
        spec_add_captures(
            spec_add_pieces(set, spec_split_classes(caps[0], Seq::empty())),
            caps.drop_first(),
        )
    }
}

/// What collecting the classes of a text does to the set: every piece of
/// every class-attribute capture is added once.
pub open spec fn spec_collect_classes(set: Seq<Seq<char>>, html: Seq<char>) -> Seq<Seq<char>> {
    match regex_captures_of(CLASS_ATTR_PATTERN@, html) {
        Some(caps) => spec_add_captures(set, caps),
        None => set,
    }
}

/// Split one capture at spaces and newlines.
fn split_class_chars(v: &Vec<char>) -> (r: Vec<Vec<char>>)
    ensures
        r.deep_view() == spec_split_classes(v@, Seq::empty()),
{
    let n = v.len();
    let mut parts: Vec<Vec<char>> = Vec::new();
    let mut cur: Vec<char> = Vec::new();
    proof {
        assert(v@.skip(0) =~= v@);
        assert(parts.deep_view() + spec_split_classes(v@, cur@) =~~= spec_split_classes(v@, cur@));
    }
    for i in 0..n
        invariant
            n == v@.len(),
            spec_split_classes(v@, Seq::empty()) == parts.deep_view() + spec_split_classes(
                v@.skip(i as int),
                cur@,
            ),
    {
        let ghost rest = v@.skip(i as int);
        proof {
            assert(rest[0] == v@[i as int]);
            assert(rest.skip(1) =~= v@.skip(i + 1));
        }
        if v[i] == ' ' || v[i] == '\n' {
            let ghost parts0 = parts.deep_view();
            let ghost curv = cur@;
            parts.push(cur);
            cur = Vec::new();
            proof {
                assert(cur@ =~= Seq::<char>::empty());
                assert(parts.deep_view() =~~= parts0.push(curv));
                assert(parts0.push(curv) + spec_split_classes(v@.skip(i + 1), Seq::empty())
                    =~~= parts0 + (seq![curv] + spec_split_classes(v@.skip(i + 1), Seq::empty())));
            }
        } else {
            cur.push(v[i]);
        }
    }
    proof {
        assert(v@.skip(n as int) =~= Seq::<char>::empty());
        assert(spec_split_classes(Seq::<char>::empty(), cur@) == seq![cur@]);
    }
    let ghost parts0 = parts.deep_view();
    let ghost curv = cur@;
    parts.push(cur);
    proof {
        assert(parts.deep_view() =~~= parts0.push(curv));
        assert(parts0 + seq![curv] =~~= parts0.push(curv));
    }
    parts
}

/// Collect every class name a text's class attributes mention.
pub fn collect_classes(html: &str, class_collector: &mut ClassCollector)
    requires
        old(class_collector).wf(),
    ensures
        final(class_collector).classes() == spec_collect_classes(
            old(class_collector).classes(),
            html@,
        ),
        final(class_collector).wf(),
{
    let ghost set0 = class_collector.classes();
    let caps = match regex_capture1(CLASS_ATTR_PATTERN, html) {
        Some(c) => c,
        None => {
            return ;
        },
    };
    let ghost capsm = strings_model(caps@);
    let nc = caps.len();
    proof {
        assert(capsm.skip(0) =~= capsm);
    }
    for c in 0..nc
        invariant
            nc == caps.len(),
            capsm == strings_model(caps@),
            class_collector.wf(),
            spec_add_captures(set0, capsm) == spec_add_captures(
                class_collector.classes(),
                capsm.skip(c as int),
            ),
    {
        let ghost rest = capsm.skip(c as int);
        proof {
            assert(rest[0] == capsm[c as int]);
            assert(rest.drop_first() =~= capsm.skip(c + 1));
        }
        let cap = str_to_chars(caps[c].as_str());
        let pieces = split_class_chars(&cap);
        let ghost piecesm = pieces.deep_view();
        let np = pieces.len();
        proof {
            assert(piecesm.skip(0) =~~= piecesm);
        }
        let ghost set_at_cap = class_collector.classes();
        for p in 0..np
            invariant
                np == pieces.len(),
                piecesm == pieces.deep_view(),
                class_collector.wf(),
                spec_add_pieces(set_at_cap, piecesm) == spec_add_pieces(
                    class_collector.classes(),
                    piecesm.skip(p as int),
                ),
        {
            let ghost prest = piecesm.skip(p as int);
            proof {
                assert(prest[0] == piecesm[p as int]);
                assert(prest.drop_first() =~~= piecesm.skip(p + 1));
            }
            let piece = &pieces[p];
            if piece.len() > 0 && !chars_eq_str(piece, "group") && !chars_eq_str(piece, "peer") {
                class_collector.insert(chars_to_string(piece));
            }
        }
        proof {
            assert(piecesm.skip(np as int) =~~= Seq::<Seq<char>>::empty());
        }
    }
    proof {
        assert(capsm.skip(nc as int) =~= Seq::<Seq<char>>::empty());
    }
}

/// A name that includes a digest of the contents:
/// `<stem>.<digest>.<extension>`.
pub fn make_cache_busted_name(name: &str, hash: &str) -> (r: String)
    requires
        spec_ext_of_name(spec_last_segment(name@)) is Some,
    ensures
        r@ == spec_stem_of_name(spec_last_segment(name@)) + seq!['.'] + hash@ + seq!['.']
            + spec_ext_of_name(spec_last_segment(name@))->Some_0,
{
    let chars = str_to_chars(name);
    let segs = split_chars(&chars, '/');
    let last = &segs[segs.len() - 1];
    proof {
        assert(last@ == segs.deep_view().last());
        assert(last@ == spec_last_segment(name@));
    }
    let ll = last.len();
    let dot = match rfind_char(last, '.') {
        Some(i) => i,
        None => {
            proof {
                assert(false);
            }
            0
        },
    };
    proof {
        assert(dot > 0);
    }
    let stem = subvec_chars(last, 0, dot);
    let ext = subvec_chars(last, dot + 1, ll);
    proof {
        assert(stem@ =~= last@.take(dot as int));
        assert(ext@ =~= last@.skip(dot + 1));
    }
    let mut out = stem;
    out.push('.');
    let hv = str_to_chars(hash);
    extend_chars(&mut out, &hv);
    out.push('.');
    extend_chars(&mut out, &ext);
    proof {
        assert(out@ =~= spec_stem_of_name(spec_last_segment(name@)) + seq!['.'] + hash@ + seq!['.']
            + spec_ext_of_name(spec_last_segment(name@))->Some_0);
    }
    chars_to_string(&out)
}

} // verus!
