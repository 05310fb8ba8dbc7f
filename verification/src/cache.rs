//! The content-addressed cache: rendered output keyed by route and content
//! digest, per-asset digests, and the coarse template checkpoint.
//!
//! The store itself is a value; reading it from and writing it back to the
//! embedded database is plain I/O that happens outside the library.

use vstd::prelude::*;

verus! {

use crate::common::{
    copy_markdown,
    markdown_model,
    CachedPageData,
    Markdown,
    MarkdownModel,
    PageType,
    SiteEntry,
    spec_page_type,
    spec_parent_url,
};

/// One cached page row: a route, the digest at last render, and the rendered
/// HTML.
pub struct PageRecord {
    pub url: String,
    pub hash: u64,
    pub rendered: String,
}

/// One cached markdown row: additionally its group key, its timestamp and
/// the parsed artifact, kept so listings need not re-parse sources.
pub struct MarkdownRecord {
    pub url: String,
    pub parent_url: String,
    pub hash: u64,
    pub timestamp: i64,
    pub markdown: Markdown,
    pub rendered: String,
}

/// One cached asset row: an asset identity and its last-seen digest.
pub struct AssetRecord {
    pub filename: String,
    pub hash: u64,
}

pub struct PageRecordModel {
    pub url: Seq<char>,
    pub hash: u64,
    pub rendered: Seq<char>,
}

pub struct MarkdownRecordModel {
    pub url: Seq<char>,
    pub parent_url: Seq<char>,
    pub hash: u64,
    pub timestamp: i64,
    pub markdown: MarkdownModel,
    pub rendered: Seq<char>,
}

pub struct AssetRecordModel {
    pub filename: Seq<char>,
    pub hash: u64,
}

impl View for PageRecord {
    type V = PageRecordModel;

    open spec fn view(&self) -> PageRecordModel {
        PageRecordModel { url: self.url@, hash: self.hash, rendered: self.rendered@ }
    }
}

impl View for MarkdownRecord {
    type V = MarkdownRecordModel;

    open spec fn view(&self) -> MarkdownRecordModel {
        MarkdownRecordModel {
            url: self.url@,
            parent_url: self.parent_url@,
            hash: self.hash,
            timestamp: self.timestamp,
            markdown: markdown_model(self.markdown),
            rendered: self.rendered@,
        }
    }
}

impl View for AssetRecord {
    type V = AssetRecordModel;

    open spec fn view(&self) -> AssetRecordModel {
        AssetRecordModel { filename: self.filename@, hash: self.hash }
    }
}

/// The whole cache state: one row per route in `pages` and `markdowns`, one
/// row per asset, and the single-row template checkpoint.
pub struct Cache {
    pub pages: Vec<PageRecord>,
    pub markdowns: Vec<MarkdownRecord>,
    pub assets: Vec<AssetRecord>,
    pub template_checkpoint: Option<u64>,
}

/// No two page rows share a route.
pub open spec fn spec_pages_distinct(s: Seq<PageRecordModel>) -> bool {
    forall|i: int, j: int| 0 <= i < j < s.len() ==> s[i].url != s[j].url
}

/// No two markdown rows share a route.
pub open spec fn spec_markdowns_distinct(s: Seq<MarkdownRecordModel>) -> bool {
    forall|i: int, j: int| 0 <= i < j < s.len() ==> s[i].url != s[j].url
}

/// No two asset rows share a name.
pub open spec fn spec_assets_distinct(s: Seq<AssetRecordModel>) -> bool {
    forall|i: int, j: int| 0 <= i < j < s.len() ==> s[i].filename != s[j].filename
}

impl Cache {
    pub open spec fn pages_view(self) -> Seq<PageRecordModel> {
        self.pages@.map_values(|r: PageRecord| r@)
    }

    pub open spec fn markdowns_view(self) -> Seq<MarkdownRecordModel> {
        self.markdowns@.map_values(|r: MarkdownRecord| r@)
    }

    pub open spec fn assets_view(self) -> Seq<AssetRecordModel> {
        self.assets@.map_values(|r: AssetRecord| r@)
    }

    /// Routes key rows uniquely, as the database's primary keys do.
    pub open spec fn wf(self) -> bool {
        &&& spec_pages_distinct(self.pages_view())
        &&& spec_markdowns_distinct(self.markdowns_view())
        &&& spec_assets_distinct(self.assets_view())
    }

    /// An empty cache, as a fresh database starts out.
    pub fn new() -> (r: Cache)
        ensures
            r.pages_view() =~= Seq::<PageRecordModel>::empty(),
            r.markdowns_view() =~= Seq::<MarkdownRecordModel>::empty(),
            r.assets_view() =~= Seq::<AssetRecordModel>::empty(),
            r.template_checkpoint is None,
            r.wf(),
    {
        Cache {
            pages: Vec::new(),
            markdowns: Vec::new(),
            assets: Vec::new(),
            template_checkpoint: None,
        }
    }
}

// ---------------------------------------------------------------------------
// Lookup and upsert, modelled on sequences of rows.
// ---------------------------------------------------------------------------
/// The first page row for a route.
pub open spec fn spec_find_page(s: Seq<PageRecordModel>, url: Seq<char>) -> Option<PageRecordModel>
    decreases s.len(),
{
    if s.len() == 0 {
        None
    } else if s[0].url == url {
        Some(s[0])
    } else {
        spec_find_page(s.drop_first(), url)
    }
}

/// The first markdown row for a route.
pub open spec fn spec_find_markdown(s: Seq<MarkdownRecordModel>, url: Seq<char>) -> Option<
    MarkdownRecordModel,
>
    decreases s.len(),
{
    if s.len() == 0 {
        None
    } else if s[0].url == url {
        Some(s[0])
    } else {
        spec_find_markdown(s.drop_first(), url)
    }
}

/// Upserting a page row: replace the row with that route, or append one.
pub open spec fn spec_upsert_page(s: Seq<PageRecordModel>, rec: PageRecordModel) -> Seq<
    PageRecordModel,
>
    decreases s.len(),
{
    if s.len() == 0 {
        seq![rec]
    } else if s[0].url == rec.url {
        seq![rec] + s.drop_first()
    } else {
        seq![s[0]] + spec_upsert_page(s.drop_first(), rec)
    }
}

/// Upserting a markdown row.
pub open spec fn spec_upsert_markdown(s: Seq<MarkdownRecordModel>, rec: MarkdownRecordModel) -> Seq<
    MarkdownRecordModel,
>
    decreases s.len(),
{
    if s.len() == 0 {
        seq![rec]
    } else if s[0].url == rec.url {
        seq![rec] + s.drop_first()
    } else {
        seq![s[0]] + spec_upsert_markdown(s.drop_first(), rec)
    }
}

/// What `restore` answers for a plain page: the rendered HTML, only when a
/// row exists for the route and its digest matches.
pub open spec fn spec_restore_page(s: Seq<PageRecordModel>, url: Seq<char>, hash: u64) -> Option<
    Seq<char>,
> {
    match spec_find_page(s, url) {
        Some(r) => if r.hash == hash {
            Some(r.rendered)
        } else {
            None
        },
        None => None,
    }
}

/// What `restore` answers for a markdown page: the parsed artifact and the
/// rendered HTML, only on a digest match.
pub open spec fn spec_restore_markdown(s: Seq<MarkdownRecordModel>, url: Seq<char>, hash: u64)
    -> Option<(MarkdownModel, Seq<char>)> {
    match spec_find_markdown(s, url) {
        Some(r) => if r.hash == hash {
            Some((r.markdown, r.rendered))
        } else {
            None
        },
        None => None,
    }
}

impl Cache {
    /// Restore the cached data for `site_entry` if its current digest equals
    /// the digest stored for its route; any mismatch or absence is a miss.
    pub fn restore_cached(&self, site_entry: &SiteEntry) -> (r: Option<CachedPageData>)
        requires
            spec_page_type(site_entry.file.rel_path@) is Some,
        ensures
            ({
                let url = site_entry.url_path@;
                let hash = site_entry.file.hash;
                match spec_page_type(site_entry.file.rel_path@)->Some_0 {
                    PageType::Markdown => match (r, spec_restore_markdown(
                        self.markdowns_view(),
                        url,
                        hash,
                    )) {
                        (Some(c), Some(m)) => c matches CachedPageData::Markdown(h, md, rend)
                            && h == hash && markdown_model(md) == m.0 && rend@ == m.1,
                        (None, None) => true,
                        _ => false,
                    },
                    PageType::Liquid => match (r, spec_restore_page(
                        self.pages_view(),
                        url,
                        hash,
                    )) {
                        (Some(c), Some(rend)) => c matches CachedPageData::Liquid(h, s)
                            && h == hash && s@ == rend,
                        (None, None) => true,
                        _ => false,
                    },
                    PageType::Html => match (r, spec_restore_page(self.pages_view(), url, hash)) {
                        (Some(c), Some(rend)) => c matches CachedPageData::Html(h, s) && h == hash
                            && s@ == rend,
                        (None, None) => true,
                        _ => false,
                    },
                }
            }),
    {
        let hash = site_entry.file.hash;
        match site_entry.get_page_type() {
            PageType::Markdown => match self.restore_cached_markdown(
                site_entry.url_path.as_str(),
                hash,
            ) {
                Some((md, rendered)) => Some(CachedPageData::Markdown(hash, md, rendered)),
                None => None,
            },
            PageType::Liquid => match self.restore_cached_page(site_entry.url_path.as_str(), hash) {
                Some(rendered) => Some(CachedPageData::Liquid(hash, rendered)),
                None => None,
            },
            PageType::Html => match self.restore_cached_page(site_entry.url_path.as_str(), hash) {
                Some(rendered) => Some(CachedPageData::Html(hash, rendered)),
                None => None,
            },
        }
    }

    /// Fetch the markdown row for a route when the digest matches.
    fn restore_cached_markdown(&self, url: &str, hash: u64) -> (r: Option<(Markdown, String)>)
        ensures
            match (r, spec_restore_markdown(self.markdowns_view(), url@, hash)) {
                (Some(p), Some(m)) => markdown_model(p.0) == m.0 && p.1@ == m.1,
                (None, None) => true,
                _ => false,
            },
    {
        let n = self.markdowns.len();
        proof {
            assert(self.markdowns_view().skip(0) =~= self.markdowns_view());
        }
        for i in 0..n
            invariant
                n == self.markdowns.len(),
                spec_find_markdown(self.markdowns_view(), url@) == spec_find_markdown(
                    self.markdowns_view().skip(i as int),
                    url@,
                ),
        {
            let ghost rest = self.markdowns_view().skip(i as int);
            proof {
                assert(rest[0] == self.markdowns_view()[i as int]);
                assert(rest.drop_first() =~= self.markdowns_view().skip(i + 1));
            }
            let rec = &self.markdowns[i];
            if crate::text::str_eq(rec.url.as_str(), url) {
                if rec.hash == hash {
                    return Some((copy_markdown(&rec.markdown), rec.rendered.clone()));
                } else {
                    return None;
                }
            }
        }
        proof {
            assert(self.markdowns_view().skip(n as int) =~= Seq::<MarkdownRecordModel>::empty());
        }
        None
    }

    /// Fetch the page row for a route when the digest matches.
    fn restore_cached_page(&self, url: &str, hash: u64) -> (r: Option<String>)
        ensures
            match (r, spec_restore_page(self.pages_view(), url@, hash)) {
                (Some(s), Some(rend)) => s@ == rend,
                (None, None) => true,
                _ => false,
            },
    {
        let n = self.pages.len();
        proof {
            assert(self.pages_view().skip(0) =~= self.pages_view());
        }
        for i in 0..n
            invariant
                n == self.pages.len(),
                spec_find_page(self.pages_view(), url@) == spec_find_page(
                    self.pages_view().skip(i as int),
                    url@,
                ),
        {
            let ghost rest = self.pages_view().skip(i as int);
            proof {
                assert(rest[0] == self.pages_view()[i as int]);
                assert(rest.drop_first() =~= self.pages_view().skip(i + 1));
            }
            let rec = &self.pages[i];
            if crate::text::str_eq(rec.url.as_str(), url) {
                if rec.hash == hash {
                    return Some(rec.rendered.clone());
                } else {
                    return None;
                }
            }
        }
        proof {
            assert(self.pages_view().skip(n as int) =~= Seq::<PageRecordModel>::empty());
        }
        None
    }

    /// Commit rendered output for `site_entry`: upsert the row for its
    /// route, replacing digest, rendered output and, for markdown, the
    /// parsed artifact.
    pub fn cache(&mut self, cached_page_data: CachedPageData, site_entry: SiteEntry)
        ensures
            final(self).template_checkpoint == old(self).template_checkpoint,
            final(self).assets_view() == old(self).assets_view(),
            old(self).wf() ==> final(self).wf(),
            match cached_page_data {
                CachedPageData::Markdown(hash, md, rendered) => {
                    &&& final(self).pages_view() == old(self).pages_view()
                    &&& final(self).markdowns_view() == spec_upsert_markdown(
                        old(self).markdowns_view(),
                        MarkdownRecordModel {
                            url: site_entry.url_path@,
                            parent_url: spec_parent_url(site_entry.url_path@),
                            hash: hash,
                            timestamp: markdown_model(md).frontmatter.timestamp,
                            markdown: markdown_model(md),
                            rendered: rendered@,
                        },
                    )
                },
                CachedPageData::Liquid(hash, rendered) => {
                    &&& final(self).markdowns_view() == old(self).markdowns_view()
                    &&& final(self).pages_view() == spec_upsert_page(
                        old(self).pages_view(),
                        PageRecordModel {
                            url: site_entry.url_path@,
                            hash: hash,
                            rendered: rendered@,
                        },
                    )
                },
                CachedPageData::Html(hash, rendered) => {
                    &&& final(self).markdowns_view() == old(self).markdowns_view()
                    &&& final(self).pages_view() == spec_upsert_page(
                        old(self).pages_view(),
                        PageRecordModel {
                            url: site_entry.url_path@,
                            hash: hash,
                            rendered: rendered@,
                        },
                    )
                },
            },
    {
        match cached_page_data {
            CachedPageData::Markdown(hash, md, rendered) => {
                let parent_url = site_entry.parent_url();
                let timestamp = md.frontmatter.timestamp;
                let rec = MarkdownRecord {
                    url: site_entry.url_path,
                    parent_url,
                    hash,
                    timestamp,
                    markdown: md,
                    rendered,
                };
                let ghost recm = rec@;
                self.cache_markdown(rec);
                proof {
                    if old(self).wf() {
                        lemma_upsert_markdown_distinct(old(self).markdowns_view(), recm);
                    }
                }
            },
            CachedPageData::Liquid(hash, rendered) => {
                let rec = PageRecord { url: site_entry.url_path, hash, rendered };
                let ghost recm = rec@;
                self.cache_page(rec);
                proof {
                    if old(self).wf() {
                        lemma_upsert_page_distinct(old(self).pages_view(), recm);
                    }
                }
            },
            CachedPageData::Html(hash, rendered) => {
                let rec = PageRecord { url: site_entry.url_path, hash, rendered };
                let ghost recm = rec@;
                self.cache_page(rec);
                proof {
                    if old(self).wf() {
                        lemma_upsert_page_distinct(old(self).pages_view(), recm);
                    }
                }
            },
        }
    }

    /// Upsert one markdown row.
    fn cache_markdown(&mut self, rec: MarkdownRecord)
        ensures
            final(self).markdowns_view() == spec_upsert_markdown(
                old(self).markdowns_view(),
                rec@,
            ),
            final(self).pages_view() == old(self).pages_view(),
            final(self).assets_view() == old(self).assets_view(),
            final(self).template_checkpoint == old(self).template_checkpoint,
    {
        let n = self.markdowns.len();
        let ghost v0 = self.markdowns_view();
        proof {
            assert(v0.skip(0) =~= v0);
            assert(v0.take(0) =~= Seq::<MarkdownRecordModel>::empty());
            assert(v0.take(0) + spec_upsert_markdown(v0, rec@) =~= spec_upsert_markdown(v0, rec@));
        }
        for i in 0..n
            invariant
                n == self.markdowns.len(),
                self.markdowns_view() == v0,
                self.pages_view() == old(self).pages_view(),
                self.assets_view() == old(self).assets_view(),
                self.template_checkpoint == old(self).template_checkpoint,
                v0 == old(self).markdowns_view(),
                forall|j: int| 0 <= j < i ==> v0[j].url != rec@.url,
                spec_upsert_markdown(v0, rec@) =~= v0.take(i as int) + spec_upsert_markdown(
                    v0.skip(i as int),
                    rec@,
                ),
        {
            let ghost rest = v0.skip(i as int);
            proof {
                assert(rest[0] == v0[i as int]);
                assert(rest.drop_first() =~= v0.skip(i + 1));
            }
            if crate::text::str_eq(self.markdowns[i].url.as_str(), rec.url.as_str()) {
                self.markdowns.set(i, rec);
                proof {
                    assert(spec_upsert_markdown(rest, rec@) =~= seq![rec@] + rest.drop_first());
                    assert(self.markdowns_view() =~= v0.take(i as int) + (seq![rec@]
                        + v0.skip(i + 1)));
                }
                return ;
            }
            proof {
                assert(spec_upsert_markdown(rest, rec@) =~= seq![rest[0]] + spec_upsert_markdown(
                    rest.drop_first(),
                    rec@,
                ));
                assert(v0.take(i as int) + (seq![v0[i as int]] + spec_upsert_markdown(
                    v0.skip(i + 1),
                    rec@,
                )) =~= v0.take(i + 1) + spec_upsert_markdown(v0.skip(i + 1), rec@));
            }
        }
        proof {
            assert(v0.skip(n as int) =~= Seq::<MarkdownRecordModel>::empty());
            assert(spec_upsert_markdown(Seq::<MarkdownRecordModel>::empty(), rec@) == seq![rec@]);
        }
        let ghost before = self.markdowns_view();
        self.markdowns.push(rec);
        proof {
            assert(self.markdowns_view() =~= before.push(rec@));
            assert(v0.take(n as int) =~= v0);
            assert(v0 + seq![rec@] =~= v0.push(rec@));
        }
    }

    /// Upsert one page row.
    fn cache_page(&mut self, rec: PageRecord)
        ensures
            final(self).pages_view() == spec_upsert_page(old(self).pages_view(), rec@),
            final(self).markdowns_view() == old(self).markdowns_view(),
            final(self).assets_view() == old(self).assets_view(),
            final(self).template_checkpoint == old(self).template_checkpoint,
    {
        let n = self.pages.len();
        let ghost v0 = self.pages_view();
        proof {
            assert(v0.skip(0) =~= v0);
            assert(v0.take(0) =~= Seq::<PageRecordModel>::empty());
            assert(v0.take(0) + spec_upsert_page(v0, rec@) =~= spec_upsert_page(v0, rec@));
        }
        for i in 0..n
            invariant
                n == self.pages.len(),
                self.pages_view() == v0,
                self.markdowns_view() == old(self).markdowns_view(),
                self.assets_view() == old(self).assets_view(),
                self.template_checkpoint == old(self).template_checkpoint,
                v0 == old(self).pages_view(),
                forall|j: int| 0 <= j < i ==> v0[j].url != rec@.url,
                spec_upsert_page(v0, rec@) =~= v0.take(i as int) + spec_upsert_page(
                    v0.skip(i as int),
                    rec@,
                ),
        {
            let ghost rest = v0.skip(i as int);
            proof {
                assert(rest[0] == v0[i as int]);
                assert(rest.drop_first() =~= v0.skip(i + 1));
            }
            if crate::text::str_eq(self.pages[i].url.as_str(), rec.url.as_str()) {
                self.pages.set(i, rec);
                proof {
                    assert(spec_upsert_page(rest, rec@) =~= seq![rec@] + rest.drop_first());
                    assert(self.pages_view() =~= v0.take(i as int) + (seq![rec@] + v0.skip(
                        i + 1,
                    )));
                }
                return ;
            }
            proof {
                assert(spec_upsert_page(rest, rec@) =~= seq![rest[0]] + spec_upsert_page(
                    rest.drop_first(),
                    rec@,
                ));
                assert(v0.take(i as int) + (seq![v0[i as int]] + spec_upsert_page(
                    v0.skip(i + 1),
                    rec@,
                )) =~= v0.take(i + 1) + spec_upsert_page(v0.skip(i + 1), rec@));
            }
        }
        proof {
            assert(v0.skip(n as int) =~= Seq::<PageRecordModel>::empty());
        }
        let ghost before = self.pages_view();
        self.pages.push(rec);
        proof {
            assert(self.pages_view() =~= before.push(rec@));
            assert(v0.take(n as int) =~= v0);
            assert(v0 + seq![rec@] =~= v0.push(rec@));
        }
    }
}

// ---------------------------------------------------------------------------
// Upserting keeps routes unique.
// ---------------------------------------------------------------------------
/// Every row of an upserted page table is the new row or one of the old.
pub proof fn lemma_upsert_page_distinct(s: Seq<PageRecordModel>, rec: PageRecordModel)
    requires
        spec_pages_distinct(s),
    ensures
        spec_pages_distinct(spec_upsert_page(s, rec)),
        forall|i: int|
            0 <= i < spec_upsert_page(s, rec).len() ==> (#[trigger] spec_upsert_page(s, rec)[i].url
                == rec.url || exists|j: int| 0 <= j < s.len() && s[j].url == spec_upsert_page(
                s,
                rec,
            )[i].url),
    decreases s.len(),
{
    let u = spec_upsert_page(s, rec);
    if s.len() == 0 {
    } else if s[0].url == rec.url {
        assert forall|i: int| 0 <= i < u.len() implies (#[trigger] u[i].url == rec.url || exists|
            j: int,
        | 0 <= j < s.len() && s[j].url == u[i].url) by {
            if i > 0 {
                assert(u[i] == s[i]);
                assert(s[i].url == u[i].url);
            }
        }
    } else {
        assert(spec_pages_distinct(s.drop_first()));
        lemma_upsert_page_distinct(s.drop_first(), rec);
        let ud = spec_upsert_page(s.drop_first(), rec);
        assert forall|i: int| 0 <= i < u.len() implies (#[trigger] u[i].url == rec.url || exists|
            j: int,
        | 0 <= j < s.len() && s[j].url == u[i].url) by {
            if i > 0 {
                assert(u[i] == ud[i - 1]);
                if ud[i - 1].url != rec.url {
                    let j = choose|j: int|
                        0 <= j < s.drop_first().len() && s.drop_first()[j].url == ud[i - 1].url;
                    assert(s[j + 1].url == u[i].url);
                }
            } else {
                assert(s[0].url == u[0].url);
            }
        }
        assert forall|i: int, j: int| 0 <= i < j < u.len() implies u[i].url != u[j].url by {
            if i == 0 {
                // The head's route collides with no old row and not with the
                // new one.
                assert(u[j] == ud[j - 1]);
                if ud[j - 1].url != rec.url {
                    let k = choose|k: int|
                        0 <= k < s.drop_first().len() && s.drop_first()[k].url == ud[j - 1].url;
                    assert(s[k + 1].url == ud[j - 1].url);
                    assert(s[0].url != s[k + 1].url);
                }
            } else {
                assert(u[i] == ud[i - 1] && u[j] == ud[j - 1]);
            }
        }
    }
}

/// Every row of an upserted markdown table is the new row or one of the
/// old.
pub proof fn lemma_upsert_markdown_distinct(s: Seq<MarkdownRecordModel>, rec: MarkdownRecordModel)
    requires
        spec_markdowns_distinct(s),
    ensures
        spec_markdowns_distinct(spec_upsert_markdown(s, rec)),
        forall|i: int|
            0 <= i < spec_upsert_markdown(s, rec).len() ==> (#[trigger] spec_upsert_markdown(
                s,
                rec,
            )[i].url == rec.url || exists|j: int|
                0 <= j < s.len() && s[j].url == spec_upsert_markdown(s, rec)[i].url),
    decreases s.len(),
{
    let u = spec_upsert_markdown(s, rec);
    if s.len() == 0 {
    } else if s[0].url == rec.url {
        assert forall|i: int| 0 <= i < u.len() implies (#[trigger] u[i].url == rec.url || exists|
            j: int,
        | 0 <= j < s.len() && s[j].url == u[i].url) by {
            if i > 0 {
                assert(u[i] == s[i]);
                assert(s[i].url == u[i].url);
            }
        }
    } else {
        assert(spec_markdowns_distinct(s.drop_first()));
        lemma_upsert_markdown_distinct(s.drop_first(), rec);
        let ud = spec_upsert_markdown(s.drop_first(), rec);
        assert forall|i: int| 0 <= i < u.len() implies (#[trigger] u[i].url == rec.url || exists|
            j: int,
        | 0 <= j < s.len() && s[j].url == u[i].url) by {
            if i > 0 {
                assert(u[i] == ud[i - 1]);
                if ud[i - 1].url != rec.url {
                    let j = choose|j: int|
                        0 <= j < s.drop_first().len() && s.drop_first()[j].url == ud[i - 1].url;
                    assert(s[j + 1].url == u[i].url);
                }
            } else {
                assert(s[0].url == u[0].url);
            }
        }
        assert forall|i: int, j: int| 0 <= i < j < u.len() implies u[i].url != u[j].url by {
            if i == 0 {
                assert(u[j] == ud[j - 1]);
                if ud[j - 1].url != rec.url {
                    let k = choose|k: int|
                        0 <= k < s.drop_first().len() && s.drop_first()[k].url == ud[j - 1].url;
                    assert(s[k + 1].url == ud[j - 1].url);
                    assert(s[0].url != s[k + 1].url);
                }
            } else {
                assert(u[i] == ud[i - 1] && u[j] == ud[j - 1]);
            }
        }
    }
}

/// Every row of an upserted asset table is the new row or one of the old.
pub proof fn lemma_upsert_asset_distinct(s: Seq<AssetRecordModel>, rec: AssetRecordModel)
    requires
        spec_assets_distinct(s),
    ensures
        spec_assets_distinct(spec_upsert_asset(s, rec)),
        forall|i: int|
            0 <= i < spec_upsert_asset(s, rec).len() ==> (#[trigger] spec_upsert_asset(
                s,
                rec,
            )[i].filename == rec.filename || exists|j: int|
                0 <= j < s.len() && s[j].filename == spec_upsert_asset(s, rec)[i].filename),
    decreases s.len(),
{
    let u = spec_upsert_asset(s, rec);
    if s.len() == 0 {
    } else if s[0].filename == rec.filename {
        assert forall|i: int| 0 <= i < u.len() implies (#[trigger] u[i].filename == rec.filename
            || exists|j: int| 0 <= j < s.len() && s[j].filename == u[i].filename) by {
            if i > 0 {
                assert(u[i] == s[i]);
                assert(s[i].filename == u[i].filename);
            }
        }
    } else {
        assert(spec_assets_distinct(s.drop_first()));
        lemma_upsert_asset_distinct(s.drop_first(), rec);
        let ud = spec_upsert_asset(s.drop_first(), rec);
        assert forall|i: int| 0 <= i < u.len() implies (#[trigger] u[i].filename == rec.filename
            || exists|j: int| 0 <= j < s.len() && s[j].filename == u[i].filename) by {
            if i > 0 {
                assert(u[i] == ud[i - 1]);
                if ud[i - 1].filename != rec.filename {
                    let j = choose|j: int|
                        0 <= j < s.drop_first().len() && s.drop_first()[j].filename == ud[i
                            - 1].filename;
                    assert(s[j + 1].filename == u[i].filename);
                }
            } else {
                assert(s[0].filename == u[0].filename);
            }
        }
        assert forall|i: int, j: int| 0 <= i < j < u.len() implies u[i].filename
            != u[j].filename by {
            if i == 0 {
                assert(u[j] == ud[j - 1]);
                if ud[j - 1].filename != rec.filename {
                    let k = choose|k: int|
                        0 <= k < s.drop_first().len() && s.drop_first()[k].filename == ud[j
                            - 1].filename;
                    assert(s[k + 1].filename == ud[j - 1].filename);
                    assert(s[0].filename != s[k + 1].filename);
                }
            } else {
                assert(u[i] == ud[i - 1] && u[j] == ud[j - 1]);
            }
        }
    }
}

// ---------------------------------------------------------------------------
// The cache round-trip law.
// ---------------------------------------------------------------------------
/// Committing a page row for a route and then restoring that route with the
/// same digest returns exactly the committed output; restoring it with any
/// other digest is a miss.
pub proof fn lemma_cache_round_trip(
    s: Seq<PageRecordModel>,
    url: Seq<char>,
    hash: u64,
    rendered: Seq<char>,
    other: u64,
)
    ensures
        spec_restore_page(
            spec_upsert_page(s, PageRecordModel { url, hash, rendered }),
            url,
            hash,
        ) == Some(rendered),
        other != hash ==> spec_restore_page(
            spec_upsert_page(s, PageRecordModel { url, hash, rendered }),
            url,
            other,
        ) is None,
    decreases s.len(),
{
    let rec = PageRecordModel { url, hash, rendered };
    if s.len() == 0 {
        assert(spec_upsert_page(s, rec) == seq![rec]);
        assert(spec_find_page(seq![rec], url) == Some(rec));
    } else if s[0].url == url {
        let u = spec_upsert_page(s, rec);
        assert(u == seq![rec] + s.drop_first());
        assert(u[0] == rec);
        assert(spec_find_page(u, url) == Some(rec));
    } else {
        let u = spec_upsert_page(s, rec);
        assert(u == seq![s[0]] + spec_upsert_page(s.drop_first(), rec));
        assert(u[0] == s[0]);
        assert(u.drop_first() =~= spec_upsert_page(s.drop_first(), rec));
        assert(spec_find_page(u, url) == spec_find_page(
            spec_upsert_page(s.drop_first(), rec),
            url,
        ));
        lemma_cache_round_trip(s.drop_first(), url, hash, rendered, other);
    }
}

// ---------------------------------------------------------------------------
// Assets and the template checkpoint.
// ---------------------------------------------------------------------------
/// The first asset row for a name.
pub open spec fn spec_find_asset(s: Seq<AssetRecordModel>, name: Seq<char>) -> Option<
    AssetRecordModel,
>
    decreases s.len(),
{
    if s.len() == 0 {
        None
    } else if s[0].filename == name {
        Some(s[0])
    } else {
        spec_find_asset(s.drop_first(), name)
    }
}

/// Upserting an asset row.
pub open spec fn spec_upsert_asset(s: Seq<AssetRecordModel>, rec: AssetRecordModel) -> Seq<
    AssetRecordModel,
>
    decreases s.len(),
{
    if s.len() == 0 {
        seq![rec]
    } else if s[0].filename == rec.filename {
        seq![rec] + s.drop_first()
    } else {
        seq![s[0]] + spec_upsert_asset(s.drop_first(), rec)
    }
}

/// Whether a fresh digest differs from the stored one; absence counts as
/// changed.
pub open spec fn spec_asset_changed(s: Seq<AssetRecordModel>, name: Seq<char>, hash: u64) -> bool {
    match spec_find_asset(s, name) {
        Some(r) => r.hash != hash,
        None => true,
    }
}

impl Cache {
    /// Compare an asset's digest with the stored one and, when it differs
    /// or no row exists, record the new digest.
    pub fn check_asset_changed(&mut self, filename: &str, hash: u64) -> (changed: bool)
        ensures
            changed == spec_asset_changed(old(self).assets_view(), filename@, hash),
            final(self).assets_view() == if changed {
                spec_upsert_asset(
                    old(self).assets_view(),
                    AssetRecordModel { filename: filename@, hash },
                )
            } else {
                old(self).assets_view()
            },
            final(self).pages_view() == old(self).pages_view(),
            final(self).markdowns_view() == old(self).markdowns_view(),
            final(self).template_checkpoint == old(self).template_checkpoint,
            old(self).wf() ==> final(self).wf(),
    {
        let previous = self.find_asset_hash(filename);
        let changed = match previous {
            Some(h) => h != hash,
            None => true,
        };
        if changed {
            self.upsert_asset(filename, hash);
            proof {
                if old(self).wf() {
                    lemma_upsert_asset_distinct(
                        old(self).assets_view(),
                        AssetRecordModel { filename: filename@, hash },
                    );
                }
            }
        }
        changed
    }

    /// The stored digest for an asset name.
    fn find_asset_hash(&self, filename: &str) -> (r: Option<u64>)
        ensures
            match (r, spec_find_asset(self.assets_view(), filename@)) {
                (Some(h), Some(rec)) => h == rec.hash,
                (None, None) => true,
                _ => false,
            },
    {
        let n = self.assets.len();
        proof {
            assert(self.assets_view().skip(0) =~= self.assets_view());
        }
        for i in 0..n
            invariant
                n == self.assets.len(),
                spec_find_asset(self.assets_view(), filename@) == spec_find_asset(
                    self.assets_view().skip(i as int),
                    filename@,
                ),
        {
            let ghost rest = self.assets_view().skip(i as int);
            proof {
                assert(rest[0] == self.assets_view()[i as int]);
                assert(rest.drop_first() =~= self.assets_view().skip(i + 1));
            }
            if crate::text::str_eq(self.assets[i].filename.as_str(), filename) {
                return Some(self.assets[i].hash);
            }
        }
        proof {
            assert(self.assets_view().skip(n as int) =~= Seq::<AssetRecordModel>::empty());
        }
        None
    }

    /// Upsert one asset row.
    fn upsert_asset(&mut self, filename: &str, hash: u64)
        ensures
            final(self).assets_view() == spec_upsert_asset(
                old(self).assets_view(),
                AssetRecordModel { filename: filename@, hash },
            ),
            final(self).pages_view() == old(self).pages_view(),
            final(self).markdowns_view() == old(self).markdowns_view(),
            final(self).template_checkpoint == old(self).template_checkpoint,
    {
        let ghost rec = AssetRecordModel { filename: filename@, hash };
        let n = self.assets.len();
        let ghost v0 = self.assets_view();
        proof {
            assert(v0.skip(0) =~= v0);
            assert(v0.take(0) =~= Seq::<AssetRecordModel>::empty());
            assert(v0.take(0) + spec_upsert_asset(v0, rec) =~= spec_upsert_asset(v0, rec));
        }
        for i in 0..n
            invariant
                n == self.assets.len(),
                self.assets_view() == v0,
                self.pages_view() == old(self).pages_view(),
                self.markdowns_view() == old(self).markdowns_view(),
                self.template_checkpoint == old(self).template_checkpoint,
                v0 == old(self).assets_view(),
                rec == (AssetRecordModel { filename: filename@, hash }),
                spec_upsert_asset(v0, rec) =~= v0.take(i as int) + spec_upsert_asset(
                    v0.skip(i as int),
                    rec,
                ),
        {
            let ghost rest = v0.skip(i as int);
            proof {
                assert(rest[0] == v0[i as int]);
                assert(rest.drop_first() =~= v0.skip(i + 1));
            }
            if crate::text::str_eq(self.assets[i].filename.as_str(), filename) {
                self.assets.set(i, AssetRecord { filename: filename.to_owned(), hash });
                proof {
                    assert(spec_upsert_asset(rest, rec) =~= seq![rec] + rest.drop_first());
                    assert(self.assets_view() =~= v0.take(i as int) + (seq![rec] + v0.skip(
                        i + 1,
                    )));
                }
                return ;
            }
            proof {
                assert(spec_upsert_asset(rest, rec) =~= seq![rest[0]] + spec_upsert_asset(
                    rest.drop_first(),
                    rec,
                ));
                assert(v0.take(i as int) + (seq![v0[i as int]] + spec_upsert_asset(
                    v0.skip(i + 1),
                    rec,
                )) =~= v0.take(i + 1) + spec_upsert_asset(v0.skip(i + 1), rec));
            }
        }
        proof {
            assert(v0.skip(n as int) =~= Seq::<AssetRecordModel>::empty());
        }
        let ghost before = self.assets_view();
        self.assets.push(AssetRecord { filename: filename.to_owned(), hash });
        proof {
            assert(self.assets_view() =~= before.push(rec));
            assert(v0.take(n as int) =~= v0);
            assert(v0 + seq![rec] =~= v0.push(rec));
        }
    }

    /// The stored template checkpoint, if any.
    pub fn get_latest_template_modified(&self) -> (r: Option<u64>)
        ensures
            r == self.template_checkpoint,
    {
        self.template_checkpoint
    }

    /// Replace the template checkpoint.
    pub fn set_latest_template_modified(&mut self, time: u64)
        ensures
            final(self).template_checkpoint == Some(time),
            final(self).pages_view() == old(self).pages_view(),
            final(self).markdowns_view() == old(self).markdowns_view(),
            final(self).assets_view() == old(self).assets_view(),
    {
        self.template_checkpoint = Some(time);
    }

    /// Compare the newest template modification time against the stored
    /// checkpoint; advance the checkpoint and report a change when it is
    /// newer or no checkpoint exists yet.
    pub fn check_latest_modified_template(&mut self, files_ts: u64) -> (changed: bool)
        ensures
            changed == match old(self).template_checkpoint {
                Some(c) => c < files_ts,
                None => true,
            },
            final(self).template_checkpoint == if changed {
                Some(files_ts)
            } else {
                old(self).template_checkpoint
            },
            final(self).pages_view() == old(self).pages_view(),
            final(self).markdowns_view() == old(self).markdowns_view(),
            final(self).assets_view() == old(self).assets_view(),
    {
        match self.template_checkpoint {
            Some(cache_ts) => {
                if cache_ts < files_ts {
                    self.template_checkpoint = Some(files_ts);
                    true
                } else {
                    false
                }
            },
            None => {
                self.template_checkpoint = Some(files_ts);
                true
            },
        }
    }
}

// ---------------------------------------------------------------------------
// The listing read path: group, order by timestamp, window.
// ---------------------------------------------------------------------------
/// The markdown rows sharing a group key, in table order.
pub open spec fn spec_group(s: Seq<MarkdownRecordModel>, parent: Seq<char>) -> Seq<
    MarkdownRecordModel,
>
    decreases s.len(),
{
    if s.len() == 0 {
        Seq::empty()
    } else if s[0].parent_url == parent {
        seq![s[0]] + spec_group(s.drop_first(), parent)
    } else {
        spec_group(s.drop_first(), parent)
    }
}

/// Insert a row into a timestamp-sorted sequence, after every row whose
/// timestamp is not larger.
pub open spec fn spec_insert_md(sorted: Seq<MarkdownRecordModel>, x: MarkdownRecordModel) -> Seq<
    MarkdownRecordModel,
>
    decreases sorted.len(),
{
    if sorted.len() == 0 {
        seq![x]
    } else if sorted[0].timestamp <= x.timestamp {
        seq![sorted[0]] + spec_insert_md(sorted.drop_first(), x)
    } else {
        seq![x] + sorted
    }
}

/// Stable sort by timestamp: rows with equal timestamps keep table order.
pub open spec fn spec_sort_md(s: Seq<MarkdownRecordModel>) -> Seq<MarkdownRecordModel>
    decreases s.len(),
{
    if s.len() == 0 {
        Seq::empty()
    } else {
        spec_insert_md(spec_sort_md(s.drop_last()), s.last())
    }
}

/// The view of a row vector.
pub open spec fn md_views(v: Seq<MarkdownRecord>) -> Seq<MarkdownRecordModel> {
    v.map_values(|r: MarkdownRecord| r@)
}

/// One fetched listing batch entry: the parsed artifact and its route.
pub open spec fn spec_fetch_page(
    s: Seq<MarkdownRecordModel>,
    parent: Seq<char>,
    limit: int,
    offset: int,
) -> Seq<(MarkdownModel, Seq<char>)> {
    let sorted = spec_sort_md(spec_group(s, parent));
    let lo = if offset <= sorted.len() {
        offset
    } else {
        sorted.len() as int
    };
    let hi = if offset + limit <= sorted.len() {
        offset + limit
    } else {
        sorted.len() as int
    };
    sorted.subrange(lo, hi).map_values(|r: MarkdownRecordModel| (r.markdown, r.url))
}

/// The model of one fetched batch.
pub open spec fn batch_model(v: Seq<(Markdown, String)>) -> Seq<(MarkdownModel, Seq<char>)> {
    v.map_values(|p: (Markdown, String)| (markdown_model(p.0), p.1@))
}

/// A fresh copy of a markdown row.
fn copy_md_record(r: &MarkdownRecord) -> (c: MarkdownRecord)
    ensures
        c@ == r@,
{
    MarkdownRecord {
        url: r.url.clone(),
        parent_url: r.parent_url.clone(),
        hash: r.hash,
        timestamp: r.timestamp,
        markdown: copy_markdown(&r.markdown),
        rendered: r.rendered.clone(),
    }
}

/// Inserting at the first position whose timestamp is larger is what
/// `spec_insert_md` does.
proof fn lemma_insert_md_at(s: Seq<MarkdownRecordModel>, x: MarkdownRecordModel, pos: int)
    requires
        0 <= pos <= s.len(),
        forall|j: int| 0 <= j < pos ==> s[j].timestamp <= x.timestamp,
        pos < s.len() ==> s[pos].timestamp > x.timestamp,
    ensures
        spec_insert_md(s, x) == s.insert(pos, x),
    decreases s.len(),
{
    if s.len() == 0 {
        assert(spec_insert_md(s, x) =~= s.insert(0, x));
    } else if pos == 0 {
        assert(s[0].timestamp > x.timestamp);
        assert(spec_insert_md(s, x) =~= s.insert(0, x));
    } else {
        assert(s[0].timestamp <= x.timestamp);
        lemma_insert_md_at(s.drop_first(), x, pos - 1);
        assert(seq![s[0]] + s.drop_first().insert(pos - 1, x) =~= s.insert(pos, x));
    }
}

/// Insert a row into a vector sorted by timestamp.
fn insert_md(sorted: &mut Vec<MarkdownRecord>, rec: MarkdownRecord)
    ensures
        md_views(final(sorted)@) == spec_insert_md(md_views(old(sorted)@), rec@),
{
    let ghost v0 = md_views(sorted@);
    let mut pos: usize = 0;
    while pos < sorted.len() && sorted[pos].timestamp <= rec.timestamp
        invariant
            0 <= pos <= sorted@.len(),
            md_views(sorted@) == v0,
            forall|j: int| 0 <= j < pos ==> v0[j].timestamp <= rec@.timestamp,
        decreases sorted@.len() - pos,
    {
        pos = pos + 1;
    }
    let ghost recv = rec@;
    sorted.insert(pos, rec);
    proof {
        lemma_insert_md_at(v0, recv, pos as int);
        assert(md_views(sorted@) =~~= v0.insert(pos as int, recv));
    }
}

/// Sort rows by timestamp, stably.
fn sort_mds(v: Vec<MarkdownRecord>) -> (r: Vec<MarkdownRecord>)
    ensures
        md_views(r@) == spec_sort_md(md_views(v@)),
    decreases v@.len(),
{
    let mut v = v;
    let ghost vv = md_views(v@);
    match v.pop() {
        None => {
            proof {
                assert(md_views(v@) =~~= Seq::<MarkdownRecordModel>::empty());
            }
            v
        },
        Some(rec) => {
            proof {
                assert(md_views(v@) =~~= vv.drop_last());
                assert(rec@ == vv.last());
            }
            let mut sorted = sort_mds(v);
            insert_md(&mut sorted, rec);
            sorted
        },
    }
}

impl Cache {
    /// The number of markdown rows sharing a group key.
    pub fn get_page_group_count(&self, parent_url: &str) -> (n: usize)
        ensures
            n == spec_group(self.markdowns_view(), parent_url@).len(),
    {
        let total = self.markdowns.len();
        let mut n: usize = 0;
        proof {
            assert(self.markdowns_view().skip(0) =~= self.markdowns_view());
        }
        for i in 0..total
            invariant
                total == self.markdowns.len(),
                n <= i,
                spec_group(self.markdowns_view(), parent_url@).len() == n + spec_group(
                    self.markdowns_view().skip(i as int),
                    parent_url@,
                ).len(),
        {
            let ghost rest = self.markdowns_view().skip(i as int);
            proof {
                assert(rest[0] == self.markdowns_view()[i as int]);
                assert(rest.drop_first() =~= self.markdowns_view().skip(i + 1));
            }
            if crate::text::str_eq(self.markdowns[i].parent_url.as_str(), parent_url) {
                n = n + 1;
            }
        }
        proof {
            assert(self.markdowns_view().skip(total as int) =~= Seq::<
                MarkdownRecordModel,
            >::empty());
        }
        n
    }

    /// One batch of the listing read path: the rows of a group ordered by
    /// timestamp, `limit` of them starting at `offset`, each as the parsed
    /// artifact and its route.
    pub fn fetch_page(&self, parent_url: &str, limit: usize, offset: usize) -> (r: Vec<
        (Markdown, String),
    >)
        ensures
            batch_model(r@) == spec_fetch_page(
                self.markdowns_view(),
                parent_url@,
                limit as int,
                offset as int,
            ),
    {
        let total = self.markdowns.len();
        let mut grp: Vec<MarkdownRecord> = Vec::new();
        proof {
            assert(self.markdowns_view().skip(0) =~= self.markdowns_view());
            assert(md_views(grp@) + spec_group(self.markdowns_view(), parent_url@)
                =~~= spec_group(self.markdowns_view(), parent_url@));
        }
        for i in 0..total
            invariant
                total == self.markdowns.len(),
                spec_group(self.markdowns_view(), parent_url@) == md_views(grp@) + spec_group(
                    self.markdowns_view().skip(i as int),
                    parent_url@,
                ),
        {
            let ghost rest = self.markdowns_view().skip(i as int);
            proof {
                assert(rest[0] == self.markdowns_view()[i as int]);
                assert(rest.drop_first() =~= self.markdowns_view().skip(i + 1));
            }
            if crate::text::str_eq(self.markdowns[i].parent_url.as_str(), parent_url) {
                let ghost before = md_views(grp@);
                let c = copy_md_record(&self.markdowns[i]);
                let ghost cv = c@;
                grp.push(c);
                proof {
                    assert(md_views(grp@) =~~= before.push(cv));
                    assert(before.push(rest[0]) + spec_group(rest.drop_first(), parent_url@)
                        =~~= before + (seq![rest[0]] + spec_group(rest.drop_first(), parent_url@)));
                }
            }
        }
        proof {
            assert(self.markdowns_view().skip(total as int) =~= Seq::<
                MarkdownRecordModel,
            >::empty());
            assert(md_views(grp@) + Seq::<MarkdownRecordModel>::empty() =~~= md_views(grp@));
        }
        let sorted = sort_mds(grp);
        let ghost sortedv = md_views(sorted@);
        let len = sorted.len();
        let lo = if offset <= len {
            offset
        } else {
            len
        };
        let hi = if limit <= len - lo {
            lo + limit
        } else {
            len
        };
        let mut r: Vec<(Markdown, String)> = Vec::new();
        proof {
            assert(batch_model(r@) =~~= sortedv.subrange(lo as int, lo as int).map_values(
                |rec: MarkdownRecordModel| (rec.markdown, rec.url),
            ));
        }
        for k in lo..hi
            invariant
                lo <= k <= hi <= len,
                len == sorted.len(),
                sortedv == md_views(sorted@),
                batch_model(r@) == sortedv.subrange(lo as int, k as int).map_values(
                    |rec: MarkdownRecordModel| (rec.markdown, rec.url),
                ),
        {
            let ghost before = batch_model(r@);
            let md = copy_markdown(&sorted[k].markdown);
            let url = sorted[k].url.clone();
            r.push((md, url));
            proof {
                assert(batch_model(r@) =~~= before.push(
                    (sortedv[k as int].markdown, sortedv[k as int].url),
                ));
                assert(sortedv.subrange(lo as int, k + 1) =~= sortedv.subrange(
                    lo as int,
                    k as int,
                ).push(sortedv[k as int]));
                assert(batch_model(r@) =~~= sortedv.subrange(lo as int, k + 1).map_values(
                    |rec: MarkdownRecordModel| (rec.markdown, rec.url),
                ));
            }
        }
        proof {
            assert(batch_model(r@) =~~= spec_fetch_page(
                self.markdowns_view(),
                parent_url@,
                limit as int,
                offset as int,
            ));
        }
        r
    }
}

/// Committing one route leaves every other route's answer unchanged.
pub proof fn lemma_upsert_page_preserves_others(
    s: Seq<PageRecordModel>,
    rec: PageRecordModel,
    url: Seq<char>,
    hash: u64,
)
    requires
        url != rec.url,
    ensures
        spec_restore_page(spec_upsert_page(s, rec), url, hash) == spec_restore_page(s, url, hash),
    decreases s.len(),
{
    let u = spec_upsert_page(s, rec);
    if s.len() == 0 {
        assert(u == seq![rec]);
        assert(u.drop_first() =~= Seq::<PageRecordModel>::empty());
    } else if s[0].url == rec.url {
        assert(u == seq![rec] + s.drop_first());
        assert(u[0] == rec);
        assert(u.drop_first() =~= s.drop_first());
        assert(spec_find_page(u, url) == spec_find_page(s.drop_first(), url));
        assert(spec_find_page(s, url) == spec_find_page(s.drop_first(), url));
    } else {
        assert(u[0] == s[0]);
        assert(u.drop_first() =~= spec_upsert_page(s.drop_first(), rec));
        lemma_upsert_page_preserves_others(s.drop_first(), rec, url, hash);
    }
}

/// The same, for markdown rows.
pub proof fn lemma_upsert_markdown_preserves_others(
    s: Seq<MarkdownRecordModel>,
    rec: MarkdownRecordModel,
    url: Seq<char>,
    hash: u64,
)
    requires
        url != rec.url,
    ensures
        spec_restore_markdown(spec_upsert_markdown(s, rec), url, hash) == spec_restore_markdown(
            s,
            url,
            hash,
        ),
    decreases s.len(),
{
    let u = spec_upsert_markdown(s, rec);
    if s.len() == 0 {
        assert(u == seq![rec]);
        assert(u.drop_first() =~= Seq::<MarkdownRecordModel>::empty());
    } else if s[0].url == rec.url {
        assert(u == seq![rec] + s.drop_first());
        assert(u[0] == rec);
        assert(u.drop_first() =~= s.drop_first());
        assert(spec_find_markdown(u, url) == spec_find_markdown(s.drop_first(), url));
        assert(spec_find_markdown(s, url) == spec_find_markdown(s.drop_first(), url));
    } else {
        assert(u[0] == s[0]);
        assert(u.drop_first() =~= spec_upsert_markdown(s.drop_first(), rec));
        lemma_upsert_markdown_preserves_others(s.drop_first(), rec, url, hash);
    }
}

/// The same round trip for markdown rows.
pub proof fn lemma_markdown_round_trip(
    s: Seq<MarkdownRecordModel>,
    rec: MarkdownRecordModel,
    other: u64,
)
    ensures
        spec_restore_markdown(spec_upsert_markdown(s, rec), rec.url, rec.hash) == Some(
            (rec.markdown, rec.rendered),
        ),
        other != rec.hash ==> spec_restore_markdown(
            spec_upsert_markdown(s, rec),
            rec.url,
            other,
        ) is None,
    decreases s.len(),
{
    if s.len() == 0 {
        assert(spec_upsert_markdown(s, rec) == seq![rec]);
        assert(spec_find_markdown(seq![rec], rec.url) == Some(rec));
    } else if s[0].url == rec.url {
        let u = spec_upsert_markdown(s, rec);
        assert(u == seq![rec] + s.drop_first());
        assert(u[0] == rec);
        assert(spec_find_markdown(u, rec.url) == Some(rec));
    } else {
        let u = spec_upsert_markdown(s, rec);
        assert(u[0] == s[0]);
        assert(u.drop_first() =~= spec_upsert_markdown(s.drop_first(), rec));
        assert(spec_find_markdown(u, rec.url) == spec_find_markdown(
            spec_upsert_markdown(s.drop_first(), rec),
            rec.url,
        ));
        lemma_markdown_round_trip(s.drop_first(), rec, other);
    }
}

} // verus!
