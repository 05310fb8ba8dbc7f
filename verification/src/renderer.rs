//! What rendering needs from the library: the order in which layouts wrap
//! content, the metadata exposed to every layout, block-template
//! resolution, and the asset names templates refer to.
//!
//! The template engine itself consumes these values outside the library
//! and returns HTML.

use vstd::prelude::*;

verus! {

use crate::common::{
    Block,
    BlockModel,
    block_model,
    blocks_model,
    BlockRules,
    copy_blocks,
    Markdown,
    PageData,
    pairs_model,
    strings_model,
};
use crate::markdown::spec_lookup;
use crate::text::str_to_chars;
use vstd::string::StringExecFns;

broadcast use crate::text::lemma_chars_deep_view;

/// How rendering can fail: the template engine reported an error.
#[derive(Clone, Copy, Debug, PartialEq, Eq, Structural)]
pub enum RenderError {
    LiquidError,
}

/// What `chrono` writes for a UTC timestamp in RFC 3339; absent when the
/// epoch second lies outside the representable range.
pub uninterp spec fn rfc3339_of(epoch: i64) -> Option<Seq<char>>;

/// Relies on `chrono::DateTime::from_timestamp` and `to_rfc3339`: the text
/// is a function of the epoch second alone.
#[verifier::external_body]
fn format_rfc3339(epoch: i64) -> (r: Option<String>)
    ensures
        match (r, rfc3339_of(epoch)) {
            (Some(s), Some(m)) => s@ == m,
            (None, None) => true,
            _ => false,
        },
{
    chrono::DateTime::<chrono::Utc>::from_timestamp(epoch, 0).map(|dt| dt.to_rfc3339())
}

/// One entry of a listing page, as layouts see it.
pub struct ListingEntry {
    pub title: String,
    pub timestamp: i64,
    pub slug: String,
    pub link: String,
    pub blocks: Vec<Block>,
}

pub struct ListingEntryModel {
    pub title: Seq<char>,
    pub timestamp: i64,
    pub slug: Seq<char>,
    pub link: Seq<char>,
    pub blocks: Seq<BlockModel>,
}

impl View for ListingEntry {
    type V = ListingEntryModel;

    open spec fn view(&self) -> ListingEntryModel {
        ListingEntryModel {
            title: self.title@,
            timestamp: self.timestamp,
            slug: self.slug@,
            link: self.link@,
            blocks: blocks_model(self.blocks@),
        }
    }
}

/// The listing entry of one cached markdown row: its frontmatter fields,
/// a link to its route, and its blocks.
pub fn listing_entry_from(markdown: &Markdown, url: &str) -> (r: ListingEntry)
    ensures
        r.title@ == markdown.frontmatter.title@,
        r.timestamp == markdown.frontmatter.timestamp,
        r.slug@ == markdown.frontmatter.slug@,
        r.link@ == seq!['/'] + url@,
        r.blocks@.len() == markdown.blocks@.len(),
        blocks_model(r.blocks@) == blocks_model(markdown.blocks@),
{
    let mut link = String::new();
    crate::text::push_char(&mut link, '/');
    link.append(url);
    proof {
        assert(Seq::<char>::empty().push('/') + url@ =~= seq!['/'] + url@);
    }
    let blocks = copy_blocks(&markdown.blocks);
    proof {
        assert(blocks_model(blocks@).len() == blocks@.len());
        assert(blocks_model(markdown.blocks@).len() == markdown.blocks@.len());
    }
    ListingEntry {
        title: markdown.frontmatter.title.clone(),
        timestamp: markdown.frontmatter.timestamp,
        slug: markdown.frontmatter.slug.clone(),
        link,
        blocks,
    }
}

/// The metadata exposed to every layout: a page's title and timestamp, or
/// a listing's entries with its neighbour links.
pub enum MetaContext {
    Page { title: String, timestamp: String },
    Listing {
        entries: Vec<ListingEntry>,
        prev_page_link: Option<String>,
        next_page_link: Option<String>,
    },
}

/// The metadata for one artifact.  A markdown page exposes its title and
/// its timestamp written in RFC 3339; a listing page exposes its entries
/// and its previous/next links, absent on the first and last page; other
/// pages expose empty metadata.
pub fn get_meta_context(page_data: &PageData) -> (r: MetaContext)
    requires
        page_data matches PageData::Listing(g, e, idx) ==> (idx.0 < idx.1 && idx.1 <= usize::MAX),
    ensures
        match page_data {
            PageData::Markdown(md) => r matches MetaContext::Page { title, timestamp } && title@
                == md.frontmatter.title@ && (match rfc3339_of(md.frontmatter.timestamp) {
                Some(s) => timestamp@ == s,
                None => timestamp@.len() == 0,
            }),
            PageData::Listing(group, entries, idx) => r matches MetaContext::Listing {
                entries: es,
                prev_page_link,
                next_page_link,
            } && es@.len() == entries@.len() && (forall|i: int|
                0 <= i < es@.len() ==> {
                    let src = #[trigger] entries@[i];
                    &&& es@[i].title@ == src.0.frontmatter.title@
                    &&& es@[i].timestamp == src.0.frontmatter.timestamp
                    &&& es@[i].slug@ == src.0.frontmatter.slug@
                    &&& es@[i].link@ == seq!['/'] + src.1@
                    &&& blocks_model(es@[i].blocks@) == blocks_model(src.0.blocks@)
                }) && (prev_page_link is Some <==> idx.0 != 0) && (next_page_link is Some <==> idx.0
                + 1 != idx.1) && (idx.0 != 0 ==> prev_page_link->Some_0@ == seq!['/'] + group@
                + seq!['/'] + crate::text::spec_decimal(idx.0 - 1) + seq!['/']) && (idx.0 + 1
                != idx.1 ==> next_page_link->Some_0@ == seq!['/'] + group@ + seq!['/']
                + crate::text::spec_decimal(idx.0 + 1) + seq!['/']),
            _ => r matches MetaContext::Page { title, timestamp } && title@.len() == 0
                && timestamp@.len() == 0,
        },
{
    match page_data {
        PageData::Markdown(md) => {
            let timestamp = match format_rfc3339(md.frontmatter.timestamp) {
                Some(s) => s,
                None => String::new(),
            };
            MetaContext::Page { title: md.frontmatter.title.clone(), timestamp }
        },
        PageData::Listing(group, entries, idx) => {
            let mut es: Vec<ListingEntry> = Vec::new();
            for i in 0..entries.len()
                invariant
                    es@.len() == i,
                    forall|j: int|
                        0 <= j < i ==> {
                            let src = #[trigger] entries@[j];
                            &&& es@[j].title@ == src.0.frontmatter.title@
                            &&& es@[j].timestamp == src.0.frontmatter.timestamp
                            &&& es@[j].slug@ == src.0.frontmatter.slug@
                            &&& es@[j].link@ == seq!['/'] + src.1@
                            &&& blocks_model(es@[j].blocks@) == blocks_model(src.0.blocks@)
                        },
            {
                let e = listing_entry_from(&entries[i].0, entries[i].1.as_str());
                es.push(e);
            }
            let (prev_page_link, next_page_link) = crate::generator::page_links(
                group.as_str(),
                idx.0,
                idx.1,
            );
            MetaContext::Listing { entries: es, prev_page_link, next_page_link }
        },
        PageData::Liquid => MetaContext::Page { title: String::new(), timestamp: String::new() },
        PageData::Html => MetaContext::Page { title: String::new(), timestamp: String::new() },
    }
}

/// The order in which layouts wrap content: innermost first, so the chain
/// is applied from its end to its start.
pub fn layout_wrap_order(layouts: &Vec<String>) -> (r: Vec<String>)
    ensures
        strings_model(r@) == strings_model(layouts@).reverse(),
{
    let n = layouts.len();
    let mut r: Vec<String> = Vec::new();
    for i in 0..n
        invariant
            n == layouts.len(),
            strings_model(r@).len() == i,
            forall|j: int| 0 <= j < i ==> strings_model(r@)[j] == layouts@[n - 1 - j]@,
    {
        let ghost before = strings_model(r@);
        r.push(layouts[n - 1 - i].clone());
        proof {
            assert(strings_model(r@) =~= before.push(layouts@[n - 1 - i as int]@));
        }
    }
    proof {
        assert(strings_model(r@) =~= strings_model(layouts@).reverse());
    }
    r
}

/// The template that renders a block: the override for its kind, when the
/// rules name one, else the kind itself.
pub open spec fn spec_block_template(
    block_rules: Option<Seq<(Seq<char>, Seq<char>)>>,
    kind: Seq<char>,
) -> Seq<char> {
    match block_rules {
        Some(pairs) => match spec_lookup(pairs, kind) {
            Some(t) => t,
            None => kind,
        },
        None => kind,
    }
}

/// Resolve the template name for a block kind under the given rules.
pub fn resolve_block_template(block_rules: &Option<BlockRules>, kind: &str) -> (r: String)
    ensures
        r@ == spec_block_template(
            match block_rules {
                Some(pairs) => Some(pairs_model(pairs@)),
                None => None,
            },
            kind@,
        ),
{
    if block_rules.is_none() {
        return kind.to_owned();
    }
    let pairs = block_rules.as_ref().unwrap();
    let n = pairs.len();
    let ghost pm = pairs_model(pairs@);
    proof {
        assert(pm.skip(0) =~= pm);
    }
    for i in 0..n
        invariant
            n == pairs.len(),
            block_rules matches Some(bp) && bp == *pairs,
            pm == pairs_model(pairs@),
            spec_lookup(pm, kind@) == spec_lookup(pm.skip(i as int), kind@),
    {
        let ghost rest = pm.skip(i as int);
        proof {
            assert(rest[0] == pm[i as int]);
            assert(rest.drop_first() =~= pm.skip(i + 1));
        }
        if crate::text::str_eq(pairs[i].0.as_str(), kind) {
            proof {
                assert(rest[0] == (pairs@[i as int].0@, pairs@[i as int].1@));
                assert(rest[0].0 == kind@);
                assert(spec_lookup(rest, kind@) == Some(rest[0].1));
                assert(spec_block_template(Some(pm), kind@) == pairs@[i as int].1@);
            }
            return pairs[i].1.clone();
        }
    }
    proof {
        assert(pm.skip(n as int) =~= Seq::<(Seq<char>, Seq<char>)>::empty());
    }
    kind.to_owned()
}

/// The partial file that renders a block template: `blocks/<name>.liquid`.
pub fn block_partial_path(template_name: &str) -> (r: String)
    ensures
        r@ == "blocks/"@ + template_name@ + ".liquid"@,
{
    let mut r = "blocks/".to_owned();
    r.append(template_name);
    r.append(".liquid");
    r
}

/// The first block of a given kind, as the listing filter looks one up.
pub open spec fn spec_first_block_of_kind(bs: Seq<BlockModel>, kind: Seq<char>) -> Option<
    BlockModel,
>
    decreases bs.len(),
{
    if bs.len() == 0 {
        None
    } else if bs[0].kind == kind {
        Some(bs[0])
    } else {
        spec_first_block_of_kind(bs.drop_first(), kind)
    }
}

/// Find the first block of the matching kind.
pub fn first_block_of_kind(blocks: &Vec<Block>, kind: &str) -> (r: Option<Block>)
    ensures
        match (r, spec_first_block_of_kind(blocks_model(blocks@), kind@)) {
            (Some(b), Some(m)) => block_model(b) == m,
            (None, None) => true,
            _ => false,
        },
{
    let n = blocks.len();
    let ghost bm = blocks_model(blocks@);
    proof {
        assert(bm.skip(0) =~= bm);
    }
    for i in 0..n
        invariant
            n == blocks.len(),
            bm == blocks_model(blocks@),
            spec_first_block_of_kind(bm, kind@) == spec_first_block_of_kind(
                bm.skip(i as int),
                kind@,
            ),
    {
        let ghost rest = bm.skip(i as int);
        proof {
            assert(rest[0] == bm[i as int]);
            assert(rest.drop_first() =~= bm.skip(i + 1));
        }
        if crate::text::str_eq(blocks[i].kind.as_str(), kind) {
            return Some(crate::common::copy_block(&blocks[i]));
        }
    }
    proof {
        assert(bm.skip(n as int) =~= Seq::<BlockModel>::empty());
    }
    None
}

/// The file a template map keys a layout under: its path when its stem is
/// the generic `layout`, else just the stem.
pub fn make_template_key(path: &str) -> (r: String)
    ensures
        ({
            let stem = crate::common::spec_stem_of_name(crate::common::spec_last_segment(path@));
            if stem == "layout"@ {
                r@ == path@
            } else {
                r@ == stem
            }
        }),
{
    let chars = str_to_chars(path);
    let segs = crate::text::split_chars(&chars, '/');
    let last = &segs[segs.len() - 1];
    proof {
        assert(last@ == segs.deep_view().last());
    }
    let ll = last.len();
    let stem = match crate::text::rfind_char(last, '.') {
        Some(i) => {
            if i > 0 {
                let s = crate::text::subvec_chars(last, 0, i);
                proof {
                    assert(s@ =~= last@.take(i as int));
                }
                s
            } else {
                crate::text::subvec_chars(last, 0, ll)
            }
        },
        None => crate::text::subvec_chars(last, 0, ll),
    };
    proof {
        assert(last@.subrange(0, last@.len() as int) =~= last@);
    }
    if crate::text::chars_eq_str(&stem, "layout") {
        path.to_owned()
    } else {
        crate::text::chars_to_string(&stem)
    }
}

/// The key a partial is stored under: its path relative to the project
/// directory.
pub fn make_partial_key(partial_path: &str, current_dir: &str) -> (r: String)
    requires
        crate::common::spec_rel_path(current_dir@, partial_path@) is Some,
    ensures
        Some(r@) == crate::common::spec_rel_path(current_dir@, partial_path@),
{
    crate::common::rel_path_of(current_dir, partial_path)
}

/// The cache-busted stylesheet name an asset map stores for an alias; the
/// alias itself when the map has no entry.
pub fn get_actual_filename(alias: &str, asset_map: &Vec<(String, String)>) -> (r: String)
    ensures
        r@ == "static/"@ + (match spec_lookup(pairs_model(asset_map@), alias@) {
            Some(v) => v,
            None => alias@,
        }),
{
    let n = asset_map.len();
    let ghost pm = pairs_model(asset_map@);
    let mut name: Option<String> = None;
    proof {
        assert(pm.skip(0) =~= pm);
    }
    for i in 0..n
        invariant
            n == asset_map.len(),
            pm == pairs_model(asset_map@),
            name is None,
            spec_lookup(pm, alias@) == spec_lookup(pm.skip(i as int), alias@),
    {
        let ghost rest = pm.skip(i as int);
        proof {
            assert(rest[0] == pm[i as int]);
            assert(rest.drop_first() =~= pm.skip(i + 1));
        }
        if crate::text::str_eq(asset_map[i].0.as_str(), alias) {
            let mut r = "static/".to_owned();
            r.append(asset_map[i].1.as_str());
            return r;
        }
    }
    proof {
        assert(pm.skip(n as int) =~= Seq::<(Seq<char>, Seq<char>)>::empty());
    }
    let mut r = "static/".to_owned();
    r.append(alias);
    r
}

/// The stylesheet include tag the `tailwind` template tag writes.
pub fn tailwind_include_tag(asset_map: &Vec<(String, String)>) -> (r: String)
    ensures
        r@ == "<link rel=\"stylesheet\" href=\""@ + ("static/"@ + (match spec_lookup(
            pairs_model(asset_map@),
            "tw.css"@,
        ) {
            Some(v) => v,
            None => "tw.css"@,
        })) + "\">"@,
{
    let filename = get_actual_filename("tw.css", asset_map);
    let mut r = "<link rel=\"stylesheet\" href=\"".to_owned();
    r.append(filename.as_str());
    r.append("\">");
    r
}

} // verus!
