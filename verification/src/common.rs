//! The shared data model: content files, site entries with their derived
//! output routes, render rules and parsed page data.

use vstd::prelude::*;

verus! {

use crate::text::{
    chars_eq_str,
    chars_to_string,
    extend_chars,
    join_chars,
    rfind_char,
    spec_join,
    spec_rfind,
    spec_split,
    split_chars,
    str_to_chars,
    subvec_chars,
};
use crate::utils::{hash_bytes, lower_of, seahash_of, spec_slug_char, spec_slug_chars, spec_slugify};

broadcast use crate::text::lemma_chars_deep_view;

/// The recognized kinds of content file.
#[derive(Clone, Copy, Debug, PartialEq, Eq, Structural)]
pub enum PageType {
    Markdown,
    Liquid,
    Html,
}

/// An input file: its paths, its contents and its content digest.
#[derive(Debug)]
pub struct ContentFile {
    /// Absolute path of the file.
    pub abs_path: String,
    /// Path relative to the pages directory.
    pub rel_path: String,
    /// File contents.
    pub contents: String,
    /// Content digest of the raw bytes.
    pub hash: u64,
}

/// A renderable unit: the underlying file plus its derived output path and
/// route.
#[derive(Debug)]
pub struct SiteEntry {
    /// The actual underlying file info.
    pub file: ContentFile,
    /// Desired output path, relative to the output directory.
    pub out_path: String,
    /// Relative url path.
    pub url_path: String,
}

/// Mapping from block kind to the template that should render it.
pub type BlockRules = Vec<(String, String)>;

/// Per-directory render configuration.
pub struct RenderRules {
    pub layouts: Vec<String>,
    pub block_rules: Option<BlockRules>,
    pub listing: Option<ListingRules>,
}

/// Listing configuration: its own layout chain and the page size.
pub struct ListingRules {
    pub layouts: Vec<String>,
    pub page_size: Option<u8>,
}

/// Page size used when a listing does not name one.
pub const DEFAULT_LISTING_PAGE_SIZE: u8 = 100;

impl RenderRules {
    /// Whether artifacts grouped under these rules should also produce
    /// paginated index pages.
    pub fn should_render_listing(&self) -> (r: bool)
        ensures
            r == self.listing is Some,
    {
        self.listing.is_some()
    }
}

/// One directory's artifacts paired with their single resolved rules.
pub struct SiteNode {
    pub dir: String,
    pub render_rules: RenderRules,
    pub site_entries: Vec<SiteEntry>,
}

/// Parsed frontmatter: a title, a timestamp in seconds since the epoch, and
/// a slug defaulted from the title.
#[derive(Debug, PartialEq)]
pub struct FrontMatter {
    pub title: String,
    pub timestamp: i64,
    pub slug: String,
}

/// A parsed markdown artifact.
#[derive(Debug, PartialEq)]
pub struct Markdown {
    pub frontmatter: FrontMatter,
    pub blocks: Vec<Block>,
}

/// One chunk of a markdown body, tagged with the kind that selects its
/// template.
#[derive(Debug, PartialEq)]
pub struct Block {
    pub kind: String,
    pub tokens: Vec<Token>,
    pub meta: Option<Vec<(String, String)>>,
}

/// A piece of a block: literal text or a nested block.
#[derive(Debug, PartialEq)]
pub enum Token {
    Literal(String),
    Block(Block),
}

/// Represents "page `i` of `n`".
pub type PageIndex = (usize, usize);

/// What an artifact carries into rendering: parsed markdown, a template or
/// raw HTML passed through, or one listing page with its ordered entries
/// and its position in the pagination.
pub enum PageData {
    Markdown(Markdown),
    Liquid,
    Html,
    Listing(String, Vec<(Markdown, String)>, PageIndex),
}

/// What the cache stores for one artifact, tagged by page kind and keyed by
/// the content digest at render time.
pub enum CachedPageData {
    Markdown(u64, Markdown, String),
    Liquid(u64, String),
    Html(u64, String),
}

impl CachedPageData {
    /// The rendered HTML carried by any of the variants.
    pub fn get_rendered(&self) -> (r: &String)
        ensures
            r@ == self.spec_rendered(),
    {
        match self {
            CachedPageData::Markdown(_, _, rendered) => rendered,
            CachedPageData::Liquid(_, rendered) => rendered,
            CachedPageData::Html(_, rendered) => rendered,
        }
    }

    /// The rendered HTML, as a sequence.
    pub open spec fn spec_rendered(&self) -> Seq<char> {
        match self {
            CachedPageData::Markdown(_, _, rendered) => rendered@,
            CachedPageData::Liquid(_, rendered) => rendered@,
            CachedPageData::Html(_, rendered) => rendered@,
        }
    }

    /// The digest carried by any of the variants.
    pub open spec fn spec_hash(&self) -> u64 {
        match self {
            CachedPageData::Markdown(h, _, _) => *h,
            CachedPageData::Liquid(h, _) => *h,
            CachedPageData::Html(h, _) => *h,
        }
    }
}

// ---------------------------------------------------------------------------
// Ghost models of the recursive page data.
// ---------------------------------------------------------------------------
pub enum TokenModel {
    Literal(Seq<char>),
    Block(BlockModel),
}

pub struct BlockModel {
    pub kind: Seq<char>,
    pub tokens: Seq<TokenModel>,
    pub meta: Option<Seq<(Seq<char>, Seq<char>)>>,
}

pub struct FrontMatterModel {
    pub title: Seq<char>,
    pub timestamp: i64,
    pub slug: Seq<char>,
}

pub struct MarkdownModel {
    pub frontmatter: FrontMatterModel,
    pub blocks: Seq<BlockModel>,
}

pub open spec fn pairs_model(pairs: Seq<(String, String)>) -> Seq<(Seq<char>, Seq<char>)> {
    pairs.map_values(|p: (String, String)| (p.0@, p.1@))
}

pub open spec fn token_model(t: Token) -> TokenModel
    decreases t,
{
    match t {
        Token::Literal(s) => TokenModel::Literal(s@),
        Token::Block(b) => TokenModel::Block(block_model(b)),
    }
}

pub open spec fn block_model(b: Block) -> BlockModel
    decreases b,
{
    proof {
        assert(decreases_to!(b => b.tokens));
        assert(decreases_to!(b.tokens => b.tokens@));
    }
    BlockModel {
        kind: b.kind@,
        tokens: tokens_model(b.tokens@),
        meta: match b.meta {
            Some(pairs) => Some(pairs_model(pairs@)),
            None => None,
        },
    }
}

pub open spec fn tokens_model(ts: Seq<Token>) -> Seq<TokenModel>
    decreases ts,
{
    if ts.len() == 0 {
        Seq::empty()
    } else {
        proof {
            assert(decreases_to!(ts => ts[0]));
            assert(ts.drop_first() == ts.subrange(1, ts.len() as int));
            assert(decreases_to!(ts => ts.subrange(1, ts.len() as int)));
        }
        seq![token_model(ts[0])] + tokens_model(ts.drop_first())
    }
}

pub open spec fn blocks_model(bs: Seq<Block>) -> Seq<BlockModel> {
    bs.map_values(|b: Block| block_model(b))
}

impl View for FrontMatter {
    type V = FrontMatterModel;

    open spec fn view(&self) -> FrontMatterModel {
        FrontMatterModel { title: self.title@, timestamp: self.timestamp, slug: self.slug@ }
    }
}

pub open spec fn markdown_model(m: Markdown) -> MarkdownModel {
    MarkdownModel { frontmatter: m.frontmatter@, blocks: blocks_model(m.blocks@) }
}

// ---------------------------------------------------------------------------
// Views of the rule and entry types.
// ---------------------------------------------------------------------------
pub struct ListingRulesModel {
    pub layouts: Seq<Seq<char>>,
    pub page_size: Option<u8>,
}

pub struct RenderRulesModel {
    pub layouts: Seq<Seq<char>>,
    pub block_rules: Option<Seq<(Seq<char>, Seq<char>)>>,
    pub listing: Option<ListingRulesModel>,
}

pub open spec fn strings_model(v: Seq<String>) -> Seq<Seq<char>> {
    v.map_values(|s: String| s@)
}

impl View for ListingRules {
    type V = ListingRulesModel;

    open spec fn view(&self) -> ListingRulesModel {
        ListingRulesModel { layouts: strings_model(self.layouts@), page_size: self.page_size }
    }
}

impl View for RenderRules {
    type V = RenderRulesModel;

    open spec fn view(&self) -> RenderRulesModel {
        RenderRulesModel {
            layouts: strings_model(self.layouts@),
            block_rules: match self.block_rules {
                Some(pairs) => Some(pairs_model(pairs@)),
                None => None,
            },
            listing: match self.listing {
                Some(l) => Some(l@),
                None => None,
            },
        }
    }
}

pub struct ContentFileModel {
    pub abs_path: Seq<char>,
    pub rel_path: Seq<char>,
    pub contents: Seq<char>,
    pub hash: u64,
}

pub struct SiteEntryModel {
    pub file: ContentFileModel,
    pub out_path: Seq<char>,
    pub url_path: Seq<char>,
}

pub struct SiteNodeModel {
    pub dir: Seq<char>,
    pub render_rules: RenderRulesModel,
    pub site_entries: Seq<SiteEntryModel>,
}

impl View for ContentFile {
    type V = ContentFileModel;

    open spec fn view(&self) -> ContentFileModel {
        ContentFileModel {
            abs_path: self.abs_path@,
            rel_path: self.rel_path@,
            contents: self.contents@,
            hash: self.hash,
        }
    }
}

impl View for SiteEntry {
    type V = SiteEntryModel;

    open spec fn view(&self) -> SiteEntryModel {
        SiteEntryModel { file: self.file@, out_path: self.out_path@, url_path: self.url_path@ }
    }
}

impl View for SiteNode {
    type V = SiteNodeModel;

    open spec fn view(&self) -> SiteNodeModel {
        SiteNodeModel {
            dir: self.dir@,
            render_rules: self.render_rules@,
            site_entries: self.site_entries@.map_values(|e: SiteEntry| e@),
        }
    }
}

/// A fresh copy of a string list.
pub fn copy_strings(v: &Vec<String>) -> (r: Vec<String>)
    ensures
        strings_model(r@) == strings_model(v@),
{
    let mut r: Vec<String> = Vec::new();
    for i in 0..v.len()
        invariant
            strings_model(r@) =~= strings_model(v@).subrange(0, i as int),
    {
        let ghost before = strings_model(r@);
        r.push(v[i].clone());
        proof {
            assert(strings_model(r@) =~= before.push(v@[i as int]@));
        }
    }
    proof {
        assert(strings_model(v@).subrange(0, v@.len() as int) =~= strings_model(v@));
    }
    r
}

/// A fresh copy of listing rules.
pub fn copy_listing_rules(l: &ListingRules) -> (r: ListingRules)
    ensures
        r@ == l@,
{
    ListingRules { layouts: copy_strings(&l.layouts), page_size: l.page_size }
}

/// A fresh copy of render rules, equal under the view.
pub fn copy_rules(rules: &RenderRules) -> (r: RenderRules)
    ensures
        r@ == rules@,
{
    let block_rules = match &rules.block_rules {
        Some(pairs) => Some(copy_pairs(pairs)),
        None => None,
    };
    let listing = match &rules.listing {
        Some(l) => Some(copy_listing_rules(l)),
        None => None,
    };
    RenderRules { layouts: copy_strings(&rules.layouts), block_rules, listing }
}

/// The process-wide default rules: a single layout, no block overrides, no
/// listing.
pub open spec fn spec_default_rules() -> RenderRulesModel {
    RenderRulesModel { layouts: seq!["primary"@], block_rules: None, listing: None }
}

/// Build the default rules.
pub fn default_render_rules() -> (r: RenderRules)
    ensures
        r@ == spec_default_rules(),
{
    let mut layouts: Vec<String> = Vec::new();
    layouts.push("primary".to_owned());
    proof {
        assert(strings_model(layouts@) =~= seq!["primary"@]);
    }
    RenderRules { layouts, block_rules: None, listing: None }
}

/// A fresh copy of a key-value list.
pub fn copy_pairs(pairs: &Vec<(String, String)>) -> (r: Vec<(String, String)>)
    ensures
        pairs_model(r@) == pairs_model(pairs@),
{
    let mut r: Vec<(String, String)> = Vec::new();
    for i in 0..pairs.len()
        invariant
            pairs_model(r@) =~= pairs_model(pairs@).subrange(0, i as int),
    {
        let ghost before = pairs_model(r@);
        r.push((pairs[i].0.clone(), pairs[i].1.clone()));
        proof {
            assert(pairs_model(r@) =~= before.push(
                (pairs@[i as int].0@, pairs@[i as int].1@),
            ));
        }
    }
    proof {
        assert(pairs_model(pairs@).subrange(0, pairs@.len() as int) =~= pairs_model(pairs@));
    }
    r
}

/// A fresh copy of a token, equal under the model.
pub fn copy_token(t: &Token) -> (r: Token)
    ensures
        token_model(r) == token_model(*t),
    decreases *t,
{
    match t {
        Token::Literal(s) => Token::Literal(s.clone()),
        Token::Block(b) => {
            proof {
                assert(decreases_to!(*t => *b));
            }
            Token::Block(copy_block(b))
        },
    }
}

/// A fresh copy of a block, equal under the model.
pub fn copy_block(b: &Block) -> (r: Block)
    ensures
        block_model(r) == block_model(*b),
    decreases *b,
{
    let mut tokens: Vec<Token> = Vec::new();
    proof {
        assert(b.tokens@.subrange(0, 0) =~= Seq::<Token>::empty());
        assert(tokens_model(tokens@) =~= tokens_model(b.tokens@.subrange(0, 0)));
    }
    for i in 0..b.tokens.len()
        invariant
            tokens_model(tokens@) == tokens_model(b.tokens@.subrange(0, i as int)),
        decreases b.tokens.len() - i,
    {
        proof {
            assert(decreases_to!(*b => b.tokens));
            assert(decreases_to!(b.tokens => b.tokens@));
            assert(decreases_to!(b.tokens@ => b.tokens@[i as int]));
        }
        let ghost tv = tokens@;
        let tok = copy_token(&b.tokens[i]);
        let ghost tokv = tok;
        tokens.push(tok);
        proof {
            lemma_tokens_model_push(tv, tokv);
            lemma_tokens_model_push(b.tokens@.subrange(0, i as int), b.tokens@[i as int]);
            assert(b.tokens@.subrange(0, i as int).push(b.tokens@[i as int]) =~= b.tokens@.subrange(
                0,
                i + 1,
            ));
        }
    }
    proof {
        assert(b.tokens@.subrange(0, b.tokens@.len() as int) =~= b.tokens@);
    }
    let meta = match &b.meta {
        Some(pairs) => Some(copy_pairs(pairs)),
        None => None,
    };
    Block { kind: b.kind.clone(), tokens, meta }
}

/// The model of a token sequence grows one token at a time.
pub proof fn lemma_tokens_model_push(ts: Seq<Token>, t: Token)
    ensures
        tokens_model(ts.push(t)) == tokens_model(ts).push(token_model(t)),
    decreases ts.len(),
{
    if ts.len() == 0 {
        assert(ts.push(t)[0] == t);
        assert(ts.push(t).drop_first() =~= Seq::<Token>::empty());
        assert(ts.push(t).drop_first().len() == 0);
        assert(tokens_model(ts.push(t).drop_first()) == Seq::<TokenModel>::empty());
        assert(tokens_model(ts.push(t)) == seq![token_model(t)] + Seq::<TokenModel>::empty());
        assert(seq![token_model(t)] + Seq::<TokenModel>::empty() =~= seq![token_model(t)]);
        assert(tokens_model(ts) == Seq::<TokenModel>::empty());
        assert(tokens_model(ts).push(token_model(t)) =~= seq![token_model(t)]);
    } else {
        assert(ts.push(t)[0] == ts[0]);
        assert(ts.push(t).drop_first() =~= ts.drop_first().push(t));
        lemma_tokens_model_push(ts.drop_first(), t);
        assert(tokens_model(ts.push(t)) == seq![token_model(ts[0])] + tokens_model(
            ts.drop_first().push(t),
        ));
        assert(tokens_model(ts) == seq![token_model(ts[0])] + tokens_model(ts.drop_first()));
        assert((seq![token_model(ts[0])] + tokens_model(ts.drop_first())).push(token_model(t))
            =~= seq![token_model(ts[0])] + tokens_model(ts.drop_first()).push(token_model(t)));
    }
}

/// The model of a block sequence grows one block at a time.
pub proof fn lemma_blocks_model_push(bs: Seq<Block>, b: Block)
    ensures
        blocks_model(bs.push(b)) == blocks_model(bs).push(block_model(b)),
{
    assert(blocks_model(bs.push(b)) =~= blocks_model(bs).push(block_model(b)));
}

/// A fresh copy of a block list, equal under the model.
pub fn copy_blocks(bs: &Vec<Block>) -> (r: Vec<Block>)
    ensures
        blocks_model(r@) == blocks_model(bs@),
{
    let mut r: Vec<Block> = Vec::new();
    for i in 0..bs.len()
        invariant
            blocks_model(r@) =~= blocks_model(bs@).subrange(0, i as int),
    {
        let ghost rv = r@;
        let b = copy_block(&bs[i]);
        let ghost bv = b;
        r.push(b);
        proof {
            assert(r@ == rv.push(bv));
            lemma_blocks_model_push(rv, bv);
            lemma_blocks_model_push(bs@.subrange(0, i as int), bs@[i as int]);
            assert(bs@.subrange(0, i as int).push(bs@[i as int]) =~= bs@.subrange(0, i + 1));
        }
    }
    proof {
        assert(blocks_model(bs@).subrange(0, bs@.len() as int) =~= blocks_model(bs@));
    }
    r
}

/// A fresh copy of parsed frontmatter.
pub fn copy_frontmatter(f: &FrontMatter) -> (r: FrontMatter)
    ensures
        r@ == f@,
{
    FrontMatter { title: f.title.clone(), timestamp: f.timestamp, slug: f.slug.clone() }
}

/// A fresh copy of a parsed markdown artifact, equal under the model.
pub fn copy_markdown(m: &Markdown) -> (r: Markdown)
    ensures
        markdown_model(r) == markdown_model(*m),
{
    Markdown { frontmatter: copy_frontmatter(&m.frontmatter), blocks: copy_blocks(&m.blocks) }
}

// ---------------------------------------------------------------------------
// Route derivation.
// ---------------------------------------------------------------------------
/// A content file whose extension names no recognized page kind.
#[derive(Clone, Copy, Debug, PartialEq, Eq, Structural)]
pub enum EntryError {
    InvalidFileType,
}

/// The digest of a string's UTF-8 bytes.
pub open spec fn spec_content_digest(s: Seq<char>) -> u64 {
    seahash_of(vstd::utf8::encode_utf8(s))
}

/// The path of `abs` relative to the directory `dir`, when `abs` lies
/// strictly under `dir`.
pub open spec fn spec_rel_path(dir: Seq<char>, abs: Seq<char>) -> Option<Seq<char>> {
    if abs.len() > dir.len() + 1 && abs.subrange(0, dir.len() as int) == dir && abs[dir.len() as int]
        == '/' {
        Some(abs.skip(dir.len() + 1int))
    } else {
        None
    }
}

/// Everything before the last separator; empty when there is none.
pub open spec fn spec_parent_dir(s: Seq<char>) -> Seq<char> {
    match spec_rfind(s, '/') {
        Some(i) => s.take(i),
        None => Seq::empty(),
    }
}

/// The extension of a file name: what follows the last dot, provided the dot
/// is not the leading character.
pub open spec fn spec_ext_of_name(name: Seq<char>) -> Option<Seq<char>> {
    match spec_rfind(name, '.') {
        Some(i) => if i > 0 {
            Some(name.skip(i + 1))
        } else {
            None
        },
        None => None,
    }
}

/// The file name without its extension.
pub open spec fn spec_stem_of_name(name: Seq<char>) -> Seq<char> {
    match spec_rfind(name, '.') {
        Some(i) => if i > 0 {
            name.take(i)
        } else {
            name
        },
        None => name,
    }
}

/// The page kind named by an extension.
pub open spec fn spec_page_type_of_ext(ext: Seq<char>) -> Option<PageType> {
    if ext == "md"@ {
        Some(PageType::Markdown)
    } else if ext == "liquid"@ {
        Some(PageType::Liquid)
    } else if ext == "html"@ {
        Some(PageType::Html)
    } else {
        None
    }
}

/// The last path segment of a relative path.
pub open spec fn spec_last_segment(rel: Seq<char>) -> Seq<char> {
    spec_split(rel, '/').last()
}

/// The page kind of a relative content path, by its extension.
pub open spec fn spec_page_type(rel: Seq<char>) -> Option<PageType> {
    match spec_ext_of_name(spec_last_segment(rel)) {
        Some(e) => spec_page_type_of_ext(e),
        None => None,
    }
}

/// The slugified segments of a relative path, extension removed.
pub open spec fn spec_route_segments(rel: Seq<char>) -> Seq<Seq<char>> {
    let segs = spec_split(rel, '/');
    let n = segs.len();
    let stemmed = segs.update(n - 1, spec_stem_of_name(segs.last()));
    stemmed.map_values(|s: Seq<char>| spec_slugify(s))
}

/// Whether the artifact maps to its directory's root.
pub open spec fn spec_is_index(rel: Seq<char>) -> bool {
    spec_route_segments(rel).last() == "index"@
}

/// The derived output path of a relative content path.
pub open spec fn spec_out_path(rel: Seq<char>) -> Seq<char> {
    let segs = spec_route_segments(rel);
    if spec_is_index(rel) {
        spec_join(segs, '/') + ".html"@
    } else {
        spec_join(segs, '/') + "/index.html"@
    }
}

/// The slug segments that make up the route: a trailing `index` maps to the
/// directory itself.
pub open spec fn spec_url_segments(rel: Seq<char>) -> Seq<Seq<char>> {
    if spec_is_index(rel) {
        spec_route_segments(rel).drop_last()
    } else {
        spec_route_segments(rel)
    }
}

/// The derived route of a relative content path, with its trailing slash.
pub open spec fn spec_url_path(rel: Seq<char>) -> Seq<char> {
    spec_join(spec_url_segments(rel), '/') + seq!['/']
}

/// Everything the derivation states about a well-formed entry.
pub open spec fn entry_wf(e: SiteEntry) -> bool {
    &&& spec_page_type(e.file.rel_path@) is Some
    &&& e.out_path@ == spec_out_path(e.file.rel_path@)
    &&& e.url_path@ == spec_url_path(e.file.rel_path@)
}


/// Strip a directory prefix and its separator from a path beneath it.
pub fn rel_path_of(pages_dir: &str, abs_path: &str) -> (r: String)
    requires
        spec_rel_path(pages_dir@, abs_path@) is Some,
    ensures
        Some(r@) == spec_rel_path(pages_dir@, abs_path@),
{
    let abs = str_to_chars(abs_path);
    let dir_len = pages_dir.unicode_len();
    let abs_len = abs.len();
    proof {
        assert(abs@.len() > pages_dir@.len() + 1);
    }
    let rel = subvec_chars(&abs, dir_len + 1, abs_len);
    proof {
        assert(abs@.subrange(pages_dir@.len() + 1int, abs@.len() as int) =~= abs@.skip(
            pages_dir@.len() + 1int,
        ));
    }
    chars_to_string(&rel)
}

impl ContentFile {
    /// Build the identity of a content file from its location and contents.
    pub fn new(pages_dir: &str, abs_path: &str, contents: String) -> (r: ContentFile)
        requires
            spec_rel_path(pages_dir@, abs_path@) is Some,
        ensures
            r.abs_path@ == abs_path@,
            Some(r.rel_path@) == spec_rel_path(pages_dir@, abs_path@),
            r.contents@ == contents@,
            r.hash == spec_content_digest(contents@),
    {
        let rel_path = rel_path_of(pages_dir, abs_path);
        let hash = hash_bytes(contents.as_str().as_bytes());
        ContentFile { abs_path: abs_path.to_owned(), rel_path, contents, hash }
    }

    /// The absolute path of the directory containing the file.
    pub fn abs_dir(&self) -> (r: String)
        ensures
            r@ == spec_parent_dir(self.abs_path@),
    {
        parent_dir(self.abs_path.as_str())
    }

    /// The relative path of the directory containing the file.
    pub fn rel_dir(&self) -> (r: String)
        ensures
            r@ == spec_parent_dir(self.rel_path@),
    {
        parent_dir(self.rel_path.as_str())
    }
}

/// The directory part of a path string.
pub fn parent_dir(path: &str) -> (r: String)
    ensures
        r@ == spec_parent_dir(path@),
{
    let chars = str_to_chars(path);
    match rfind_char(&chars, '/') {
        Some(i) => {
            let prefix = subvec_chars(&chars, 0, i);
            proof {
                assert(chars@.subrange(0, i as int) =~= chars@.take(i as int));
            }
            chars_to_string(&prefix)
        },
        None => {
            let r = String::new();
            proof {
                assert(r@ =~= Seq::<char>::empty());
            }
            r
        },
    }
}

/// The page kind of an extension, written out.
fn page_type_of_ext(ext: &Vec<char>) -> (r: Option<PageType>)
    ensures
        r == spec_page_type_of_ext(ext@),
{
    if chars_eq_str(ext, "md") {
        Some(PageType::Markdown)
    } else if chars_eq_str(ext, "liquid") {
        Some(PageType::Liquid)
    } else if chars_eq_str(ext, "html") {
        Some(PageType::Html)
    } else {
        None
    }
}

/// The page kind of a relative path, by the extension of its last segment.
fn page_type_of_rel(rel: &str) -> (r: Option<PageType>)
    ensures
        r == spec_page_type(rel@),
{
    let chars = str_to_chars(rel);
    let segs = split_chars(&chars, '/');
    let last = &segs[segs.len() - 1];
    proof {
        assert(last@ == segs.deep_view().last());
        assert(last@ == spec_last_segment(rel@));
    }
    let last_len = last.len();
    match rfind_char(last, '.') {
        Some(i) => {
            if i > 0 {
                let ext = subvec_chars(last, i + 1, last_len);
                proof {
                    assert(last@.subrange(i + 1, last@.len() as int) =~= last@.skip(i + 1));
                }
                page_type_of_ext(&ext)
            } else {
                None
            }
        },
        None => None,
    }
}

impl SiteEntry {
    /// Derive the entry for one content file: reject unrecognized
    /// extensions, slugify the path segments, and map a trailing `index` to
    /// its directory's root.
    pub fn try_new(pages_dir: &str, abs_path: &str, contents: String) -> (r: Result<
        SiteEntry,
        EntryError,
    >)
        requires
            spec_rel_path(pages_dir@, abs_path@) is Some,
        ensures
            ({
                let rel = spec_rel_path(pages_dir@, abs_path@)->Some_0;
                match r {
                    Ok(e) => {
                        &&& spec_page_type(rel) is Some
                        &&& e.file.abs_path@ == abs_path@
                        &&& e.file.rel_path@ == rel
                        &&& e.file.contents@ == contents@
                        &&& e.file.hash == spec_content_digest(contents@)
                        &&& e.out_path@ == spec_out_path(rel)
                        &&& e.url_path@ == spec_url_path(rel)
                        &&& entry_wf(e)
                    },
                    Err(_) => spec_page_type(rel) is None,
                }
            }),
    {
        let file = ContentFile::new(pages_dir, abs_path, contents);
        if page_type_of_rel(file.rel_path.as_str()).is_none() {
            return Err(EntryError::InvalidFileType);
        }
        let rel = str_to_chars(file.rel_path.as_str());
        let ghost relv = rel@;
        let segs = split_chars(&rel, '/');
        let n = segs.len();
        let last = &segs[n - 1];
        proof {
            assert(last.deep_view() == segs.deep_view().last());
        }
        let stem = match rfind_char(last, '.') {
            Some(i) => {
                if i > 0 {
                    let s = subvec_chars(last, 0, i);
                    proof {
                        assert(last@.subrange(0, i as int) =~= last@.take(i as int));
                    }
                    s
                } else {
                    subvec_chars(last, 0, last.len())
                }
            },
            None => subvec_chars(last, 0, last.len()),
        };
        proof {
            assert(last@.subrange(0, last@.len() as int) =~= last@);
            assert(stem@ == spec_stem_of_name(segs.deep_view().last()));
        }
        // Slugify every segment, the last one with its extension removed.
        let mut slugged: Vec<Vec<char>> = Vec::new();
        let ghost stemmed = segs.deep_view().update(n - 1, stem@);
        for j in 0..n - 1
            invariant
                n == segs.len(),
                n == segs.deep_view().len(),
                n >= 1,
                stemmed == segs.deep_view().update(n - 1, stem@),
                slugged.deep_view() =~~= stemmed.map_values(
                    |s: Seq<char>| spec_slugify(s),
                ).subrange(0, j as int),
        {
            let ghost before = slugged.deep_view();
            let sl = crate::utils::slugify_chars(&segs[j]);
            slugged.push(sl);
            proof {
                assert(stemmed[j as int] == segs.deep_view()[j as int]);
                assert(slugged.deep_view() =~~= before.push(spec_slugify(stemmed[j as int])));
                assert(slugged.deep_view() =~~= stemmed.map_values(
                    |s: Seq<char>| spec_slugify(s),
                ).subrange(0, j + 1));
            }
        }
        let ghost before = slugged.deep_view();
        let sl = crate::utils::slugify_chars(&stem);
        slugged.push(sl);
        proof {
            assert(stemmed[n - 1] == stem@);
            assert(slugged.deep_view() =~~= before.push(spec_slugify(stem@)));
            assert(slugged.deep_view() =~~= stemmed.map_values(|s: Seq<char>| spec_slugify(s)));
            assert(slugged.deep_view() == spec_route_segments(relv));
        }
        let is_index = chars_eq_str(&slugged[slugged.len() - 1], "index");
        proof {
            assert(slugged.deep_view().last() == slugged@[slugged@.len() - 1].deep_view());
            assert(is_index == spec_is_index(relv));
        }
        let joined = join_chars(&slugged, '/');
        let mut out_chars = joined;
        let mut url_chars: Vec<char>;
        if is_index {
            let suffix = str_to_chars(".html");
            let ghost out0 = out_chars@;
            extend_chars(&mut out_chars, &suffix);
            proof {
                assert(out_chars@ == out0 + ".html"@);
            }
            let mut url_segs = slugged;
            url_segs.pop();
            proof {
                assert(url_segs.deep_view() =~~= spec_route_segments(relv).drop_last());
            }
            url_chars = join_chars(&url_segs, '/');
        } else {
            let suffix = str_to_chars("/index.html");
            let ghost out0 = out_chars@;
            extend_chars(&mut out_chars, &suffix);
            proof {
                assert(out_chars@ == out0 + "/index.html"@);
            }
            url_chars = join_chars(&slugged, '/');
        }
        url_chars.push('/');
        proof {
            assert(url_chars@ == spec_join(spec_url_segments(relv), '/').push('/'));
            assert(spec_join(spec_url_segments(relv), '/').push('/') =~= spec_join(
                spec_url_segments(relv),
                '/',
            ) + seq!['/']);
        }
        let out_path = chars_to_string(&out_chars);
        let url_path = chars_to_string(&url_chars);
        Ok(SiteEntry { file, out_path, url_path })
    }

    /// The page kind of this entry's file.
    pub fn get_page_type(&self) -> (r: PageType)
        requires
            spec_page_type(self.file.rel_path@) is Some,
        ensures
            Some(r) == spec_page_type(self.file.rel_path@),
    {
        page_type_of_rel(self.file.rel_path.as_str()).unwrap()
    }

    /// The route of the group this entry belongs to: its url with the last
    /// segment removed.
    pub fn parent_url(&self) -> (r: String)
        ensures
            r@ == spec_parent_url(self.url_path@),
    {
        let chars = str_to_chars(self.url_path.as_str());
        let parts = split_chars(&chars, '/');
        let mut segs: Vec<Vec<char>> = Vec::new();
        proof {
            assert(parts.deep_view().skip(0) =~~= parts.deep_view());
            assert(segs.deep_view() + spec_nonempty_parts(parts.deep_view())
                =~~= spec_nonempty_parts(parts.deep_view()));
        }
        for i in 0..parts.len()
            invariant
                parts.deep_view().len() == parts.len(),
                spec_nonempty_parts(parts.deep_view()) == segs.deep_view() + spec_nonempty_parts(
                    parts.deep_view().skip(i as int),
                ),
        {
            let ghost rest = parts.deep_view().skip(i as int);
            proof {
                assert(rest[0] == parts.deep_view()[i as int]);
                assert(rest.drop_first() =~~= parts.deep_view().skip(i + 1));
            }
            if parts[i].len() > 0 {
                let ghost before = segs.deep_view();
                let part = subvec_chars(&parts[i], 0, parts[i].len());
                proof {
                    assert(part@ =~= parts@[i as int]@);
                }
                segs.push(part);
                proof {
                    assert(segs.deep_view() =~~= before.push(parts.deep_view()[i as int]));
                    assert(spec_nonempty_parts(rest) =~~= seq![rest[0]] + spec_nonempty_parts(
                        rest.drop_first(),
                    ));
                    assert(before.push(rest[0]) + spec_nonempty_parts(rest.drop_first())
                        =~~= before + (seq![rest[0]] + spec_nonempty_parts(rest.drop_first())));
                }
            } else {
                proof {
                    assert(spec_nonempty_parts(rest) =~~= spec_nonempty_parts(rest.drop_first()));
                }
            }
        }
        proof {
            assert(parts.deep_view().skip(parts.deep_view().len() as int)
                =~~= Seq::<Seq<char>>::empty());
            assert(segs.deep_view() + spec_nonempty_parts(Seq::<Seq<char>>::empty())
                =~~= segs.deep_view());
        }
        if segs.len() == 0 {
            let r = String::new();
            proof {
                assert(r@ =~= Seq::<char>::empty());
            }
            return r;
        }
        if segs.len() == 1 && chars.len() > 0 && chars[0] == '/' {
            let mut r: Vec<char> = Vec::new();
            r.push('/');
            proof {
                assert(r@ =~= seq!['/']);
            }
            return chars_to_string(&r);
        }
        let ghost segs0 = segs.deep_view();
        segs.pop();
        proof {
            assert(segs.deep_view() =~~= segs0.take(segs0.len() - 1));
        }
        let joined = join_chars(&segs, '/');
        chars_to_string(&joined)
    }
}

/// The parts of a split that are nonempty, in order.
pub open spec fn spec_nonempty_parts(parts: Seq<Seq<char>>) -> Seq<Seq<char>>
    decreases parts.len(),
{
    if parts.len() == 0 {
        Seq::empty()
    } else if parts[0].len() == 0 {
        spec_nonempty_parts(parts.drop_first())
    } else {
        seq![parts[0]] + spec_nonempty_parts(parts.drop_first())
    }
}

/// The route of the enclosing group of a url: the url's nonempty segments
/// with the last removed, joined back together.
pub open spec fn spec_parent_url(url: Seq<char>) -> Seq<char> {
    let segs = spec_nonempty_parts(spec_split(url, '/'));
    if segs.len() == 0 {
        Seq::empty()
    } else if segs.len() == 1 && url.len() > 0 && url[0] == '/' {
        seq!['/']
    } else {
        spec_join(segs.take(segs.len() - 1), '/')
    }
}

// ---------------------------------------------------------------------------
// Route determinism and injectivity.
//
// The route of an entry is a pure function of its relative path: `try_new`
// ensures that `out_path` and `url_path` equal `spec_out_path` and
// `spec_url_path` of the relative path, so equal paths always derive equal
// routes.  The lemmas below state the other direction: distinct slug
// segments derive distinct routes.
// ---------------------------------------------------------------------------
/// A segment with no separator in it.
pub open spec fn sep_free(seg: Seq<char>, sep: char) -> bool {
    forall|k: int| 0 <= k < seg.len() ==> seg[k] != sep
}

/// Slugs contain only dashes and ASCII alphanumerics, so never a separator.
pub proof fn lemma_slug_chars_sep_free(s: Seq<char>)
    ensures
        sep_free(spec_slug_chars(s), '/'),
    decreases s.len(),
{
    if s.len() == 0 {
    } else {
        lemma_slug_chars_sep_free(s.skip(1));
        match spec_slug_char(s[0]) {
            Some(c) => {
                assert(c != '/');
                assert forall|k: int|
                    0 <= k < spec_slug_chars(s).len() implies spec_slug_chars(s)[k] != '/' by {
                    if k > 0 {
                        assert(spec_slug_chars(s)[k] == spec_slug_chars(s.skip(1))[k - 1]);
                    }
                }
            },
            None => {},
        }
    }
}

/// Joining nonempty, separator-free segments is injective: distinct segment
/// sequences give distinct joined strings.
pub proof fn lemma_join_injective(a: Seq<Seq<char>>, b: Seq<Seq<char>>, sep: char)
    requires
        forall|i: int| 0 <= i < a.len() ==> a[i].len() > 0 && sep_free(#[trigger] a[i], sep),
        forall|i: int| 0 <= i < b.len() ==> b[i].len() > 0 && sep_free(#[trigger] b[i], sep),
        spec_join(a, sep) == spec_join(b, sep),
    ensures
        a == b,
    decreases a.len(),
{
    let ja = spec_join(a, sep);
    let jb = spec_join(b, sep);
    if a.len() == 0 {
        if b.len() == 1 {
            assert(jb.len() >= 1);
            assert(false);
        } else if b.len() > 1 {
            assert(jb.len() >= b[0].len() + 1 + spec_join(b.drop_first(), sep).len());
            assert(false);
        }
        assert(a =~= b);
    } else if b.len() == 0 {
        lemma_join_injective(b, a, sep);
    } else if a.len() == 1 && b.len() == 1 {
        assert(a =~= b);
    } else if a.len() == 1 {
        // `ja` is a single separator-free segment, while `jb` holds a
        // separator at the end of its first segment.
        assert(jb == b[0] + seq![sep] + spec_join(b.drop_first(), sep));
        assert(jb[b[0].len() as int] == sep);
        assert(ja == a[0]);
        assert(ja[b[0].len() as int] != sep);
        assert(false);
    } else if b.len() == 1 {
        lemma_join_injective(b, a, sep);
    } else {
        assert(ja == a[0] + seq![sep] + spec_join(a.drop_first(), sep));
        assert(jb == b[0] + seq![sep] + spec_join(b.drop_first(), sep));
        let la = a[0].len() as int;
        let lb = b[0].len() as int;
        if la < lb {
            assert(ja[la] == sep);
            assert(jb[la] == b[0][la]);
            assert(false);
        }
        if lb < la {
            assert(jb[lb] == sep);
            assert(ja[lb] == a[0][lb]);
            assert(false);
        }
        assert forall|k: int| 0 <= k < la implies a[0][k] == b[0][k] by {
            assert(ja[k] == a[0][k]);
            assert(jb[k] == b[0][k]);
        }
        assert(a[0] =~= b[0]);
        assert(spec_join(a.drop_first(), sep) =~= ja.skip(la + 1));
        assert(spec_join(b.drop_first(), sep) =~= jb.skip(lb + 1));
        lemma_join_injective(a.drop_first(), b.drop_first(), sep);
        assert(a =~= seq![a[0]] + a.drop_first());
        assert(b =~= seq![b[0]] + b.drop_first());
    }
}

/// Route injectivity: two content paths whose slug segments differ derive
/// distinct routes, provided no slug segment is empty.
pub proof fn lemma_route_injective(rel1: Seq<char>, rel2: Seq<char>)
    requires
        forall|i: int|
            0 <= i < spec_url_segments(rel1).len() ==> #[trigger] spec_url_segments(
                rel1,
            )[i].len() > 0,
        forall|i: int|
            0 <= i < spec_url_segments(rel2).len() ==> #[trigger] spec_url_segments(
                rel2,
            )[i].len() > 0,
        spec_url_segments(rel1) != spec_url_segments(rel2),
    ensures
        spec_url_path(rel1) != spec_url_path(rel2),
{
    lemma_url_segments_sep_free(rel1);
    lemma_url_segments_sep_free(rel2);
    if spec_url_path(rel1) == spec_url_path(rel2) {
        let j1 = spec_join(spec_url_segments(rel1), '/');
        let j2 = spec_join(spec_url_segments(rel2), '/');
        assert(j1 =~= (j1 + seq!['/']).take((j1 + seq!['/']).len() - 1));
        assert(j2 =~= (j2 + seq!['/']).take((j2 + seq!['/']).len() - 1));
        lemma_join_injective(spec_url_segments(rel1), spec_url_segments(rel2), '/');
        assert(false);
    }
}

/// A separator-free suffix does not move the last separator.
pub proof fn lemma_rfind_no_hit_suffix(a: Seq<char>, b: Seq<char>, c: char)
    requires
        forall|k: int| 0 <= k < b.len() ==> b[k] != c,
    ensures
        spec_rfind(a + b, c) == spec_rfind(a, c),
    decreases b.len(),
{
    if b.len() == 0 {
        assert(a + b =~= a);
    } else {
        assert((a + b).last() == b.last());
        assert((a + b).drop_last() =~= a + b.drop_last());
        lemma_rfind_no_hit_suffix(a, b.drop_last(), c);
    }
}

/// The separator pushed at the end is the last one.
pub proof fn lemma_rfind_last_sep(a: Seq<char>, c: char)
    ensures
        spec_rfind(a.push(c), c) == Some(a.len() as int),
{
    assert(a.push(c).last() == c);
}

/// The derived output path lies inside the derived route's directory: its
/// parent is the route's segments joined back together.
pub proof fn lemma_out_path_parent(rel: Seq<char>)
    ensures
        spec_parent_dir(spec_out_path(rel)) == spec_join(spec_url_segments(rel), '/'),
{
    lemma_split_acc_len(rel, '/', Seq::empty());
    let segs = spec_route_segments(rel);
    let out = spec_out_path(rel);
    reveal_strlit("index");
    reveal_strlit(".html");
    reveal_strlit("/index.html");
    if spec_is_index(rel) {
        let url = segs.drop_last();
        assert(segs =~= url.push(segs.last()));
        crate::text::lemma_join_push(url, '/', segs.last());
        assert(segs.last() == "index"@);
        if url.len() == 0 {
            assert(spec_join(segs, '/') == "index"@);
            assert(out =~= Seq::<char>::empty() + ("index"@ + ".html"@));
            assert(forall|k: int|
                0 <= k < ("index"@ + ".html"@).len() ==> ("index"@ + ".html"@)[k] != '/');
            lemma_rfind_no_hit_suffix(Seq::empty(), "index"@ + ".html"@, '/');
            assert(spec_rfind(Seq::<char>::empty(), '/') is None);
            assert(spec_join(url, '/') =~= Seq::<char>::empty());
        } else {
            let j = spec_join(url, '/');
            assert(spec_join(segs, '/') == j + seq!['/'] + "index"@);
            let tail = "index"@ + ".html"@;
            assert(out =~= (j + seq!['/']) + tail);
            assert(forall|k: int| 0 <= k < tail.len() ==> tail[k] != '/');
            lemma_rfind_no_hit_suffix(j + seq!['/'], tail, '/');
            assert(j + seq!['/'] =~= j.push('/'));
            lemma_rfind_last_sep(j, '/');
            assert(spec_rfind(out, '/') == Some(j.len() as int));
            assert(out.take(j.len() as int) =~= j);
        }
    } else {
        let j = spec_join(segs, '/');
        let tail = "/index.html"@.skip(1);
        assert("/index.html"@[0] == '/');
        assert(out =~= (j + seq!['/']) + tail);
        assert(forall|k: int| 0 <= k < tail.len() ==> tail[k] != '/') by {
            assert(forall|k: int|
                1 <= k < "/index.html"@.len() ==> "/index.html"@[k] != '/');
        }
        lemma_rfind_no_hit_suffix(j + seq!['/'], tail, '/');
        assert(j + seq!['/'] =~= j.push('/'));
        lemma_rfind_last_sep(j, '/');
        assert(spec_rfind(out, '/') == Some(j.len() as int));
        assert(out.take(j.len() as int) =~= j);
    }
}

/// Output-path injectivity: two content paths whose slug segments differ
/// derive distinct output paths, provided no slug segment is empty.
pub proof fn lemma_out_path_injective(rel1: Seq<char>, rel2: Seq<char>)
    requires
        forall|i: int|
            0 <= i < spec_url_segments(rel1).len() ==> #[trigger] spec_url_segments(
                rel1,
            )[i].len() > 0,
        forall|i: int|
            0 <= i < spec_url_segments(rel2).len() ==> #[trigger] spec_url_segments(
                rel2,
            )[i].len() > 0,
        spec_url_segments(rel1) != spec_url_segments(rel2),
    ensures
        spec_out_path(rel1) != spec_out_path(rel2),
{
    if spec_out_path(rel1) == spec_out_path(rel2) {
        lemma_out_path_parent(rel1);
        lemma_out_path_parent(rel2);
        lemma_url_segments_sep_free(rel1);
        lemma_url_segments_sep_free(rel2);
        lemma_join_injective(spec_url_segments(rel1), spec_url_segments(rel2), '/');
        assert(false);
    }
}

/// A split always has at least one part.
pub proof fn lemma_split_acc_len(s: Seq<char>, sep: char, cur: Seq<char>)
    ensures
        crate::text::spec_split_acc(s, sep, cur).len() >= 1,
    decreases s.len(),
{
    if s.len() == 0 {
    } else if s[0] == sep {
        lemma_split_acc_len(s.skip(1), sep, Seq::empty());
    } else {
        lemma_split_acc_len(s.skip(1), sep, cur.push(s[0]));
    }
}

/// Every route segment is a slug, hence separator-free.
pub proof fn lemma_url_segments_sep_free(rel: Seq<char>)
    ensures
        forall|i: int|
            0 <= i < spec_url_segments(rel).len() ==> sep_free(
                #[trigger] spec_url_segments(rel)[i],
                '/',
            ),
{
    lemma_split_acc_len(rel, '/', Seq::empty());
    let all = spec_route_segments(rel);
    assert forall|i: int| 0 <= i < all.len() implies sep_free(#[trigger] all[i], '/') by {
        let segs = spec_split(rel, '/');
        let stemmed = segs.update(segs.len() - 1, spec_stem_of_name(segs.last()));
        assert(all[i] == spec_slugify(stemmed[i]));
        lemma_slug_chars_sep_free(lower_of(stemmed[i]));
    }
    assert forall|i: int|
        0 <= i < spec_url_segments(rel).len() implies sep_free(
        #[trigger] spec_url_segments(rel)[i],
        '/',
    ) by {
        if spec_is_index(rel) {
            assert(spec_url_segments(rel) == all.drop_last());
            assert(all.drop_last()[i] == all[i]);
        } else {
            assert(spec_url_segments(rel)[i] == all[i]);
        }
    }
}

} // verus!
