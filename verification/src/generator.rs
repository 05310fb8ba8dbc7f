//! The generation pipeline's decisions: when a run must re-render
//! everything, how each artifact is routed between the cache-restore path
//! and the render path, and how listing pages are laid out.
//!
//! The channels, the worker pool and the file copies live outside the
//! library; they feed these functions plain values and carry out what the
//! decisions say.

use vstd::prelude::*;

verus! {

use crate::cache::{
    spec_asset_changed,
    spec_fetch_page,
    spec_restore_page,
    spec_upsert_page,
    AssetRecordModel,
    Cache,
    PageRecordModel,
};
use crate::common::{CachedPageData, PageData};
use crate::text::{push_char, spec_decimal, usize_to_string};
use vstd::string::StringExecFns;

/// What the router does with one artifact: forward the cached data
/// straight to persistence, or send it to the render stage.
pub enum RouteDecision {
    Restore(CachedPageData),
    Render,
}

/// A run re-renders everything when the cache is disabled, an asset
/// changed, or a template changed.
pub open spec fn spec_force_render(
    no_cache: bool,
    assets_changed: bool,
    templates_changed: bool,
) -> bool {
    no_cache || assets_changed || templates_changed
}

/// Whether an artifact goes to the render stage: always under
/// `force_render`, otherwise exactly on a cache miss or when the previous
/// output could not be copied forward.
pub open spec fn spec_route_to_render(force_render: bool, hit: bool, copy_ok: bool) -> bool {
    force_render || !hit || !copy_ok
}

/// Compute the run-wide re-render flag.
pub fn compute_force_render(no_cache: bool, assets_changed: bool, templates_changed: bool) -> (r:
    bool)
    ensures
        r == spec_force_render(no_cache, assets_changed, templates_changed),
{
    no_cache || assets_changed || templates_changed
}

/// Route one artifact, given what the cache answered for it and whether
/// its previous output file could be copied into the staging tree.
pub fn route_entry(force_render: bool, restored: Option<CachedPageData>, copy_ok: bool) -> (r:
    RouteDecision)
    ensures
        spec_route_to_render(force_render, restored is Some, copy_ok) <==> r is Render,
        r matches RouteDecision::Restore(c) ==> restored == Some(c),
{
    if force_render || !copy_ok {
        return RouteDecision::Render;
    }
    match restored {
        Some(c) => RouteDecision::Restore(c),
        None => RouteDecision::Render,
    }
}

/// The newest modification time among the given ones.
pub fn get_latest_modified(times: &Vec<u64>) -> (r: Option<u64>)
    ensures
        match r {
            Some(m) => times@.contains(m) && forall|i: int|
                0 <= i < times@.len() ==> times@[i] <= m,
            None => times@.len() == 0,
        },
{
    let mut max: Option<u64> = None;
    for i in 0..times.len()
        invariant
            match max {
                Some(m) => times@.subrange(0, i as int).contains(m) && forall|j: int|
                    0 <= j < i ==> times@[j] <= m,
                None => i == 0,
            },
    {
        let t = times[i];
        max = match max {
            Some(m) => if t > m {
                Some(t)
            } else {
                Some(m)
            },
            None => Some(t),
        };
        proof {
            let pre = times@.subrange(0, i as int);
            let cur = times@.subrange(0, i + 1);
            assert(cur =~= pre.push(times@[i as int]));
            match max {
                Some(m) => {
                    if m == times@[i as int] {
                        assert(cur[i as int] == m);
                    } else {
                        let k = choose|k: int| 0 <= k < pre.len() && pre[k] == m;
                        assert(cur[k] == m);
                    }
                },
                None => {},
            }
        }
    }
    proof {
        match max {
            Some(m) => {
                let pre = times@.subrange(0, times@.len() as int);
                assert(pre =~= times@);
            },
            None => {},
        }
    }
    max
}

// ---------------------------------------------------------------------------
// Idempotence: a second run over unchanged sources restores everything.
// ---------------------------------------------------------------------------
/// Once a run has committed an artifact's rendered output under its route
/// and digest, a second run over the unchanged source hits the cache at
/// that digest, and with no global invalidation its router restores the
/// artifact instead of re-rendering it — so the second run sends nothing
/// to the render stage and writes byte-identical output.
pub proof fn lemma_idempotence(
    pages: Seq<PageRecordModel>,
    url: Seq<char>,
    hash: u64,
    rendered: Seq<char>,
)
    ensures
        ({
            let committed = spec_upsert_page(pages, PageRecordModel { url, hash, rendered });
            &&& spec_restore_page(committed, url, hash) == Some(rendered)
            &&& !spec_route_to_render(
                spec_force_render(false, false, false),
                spec_restore_page(committed, url, hash) is Some,
                true,
            )
        }),
{
    crate::cache::lemma_cache_round_trip(pages, url, hash, rendered, hash);
}

/// The cache after a whole run committed its artifacts, route by route.
pub open spec fn spec_commit_all(
    s: Seq<PageRecordModel>,
    recs: Seq<PageRecordModel>,
) -> Seq<PageRecordModel>
    decreases recs.len(),
{
    if recs.len() == 0 {
        s
    } else {
        spec_commit_all(spec_upsert_page(s, recs[0]), recs.drop_first())
    }
}

/// Later commits of other routes leave a route's answer unchanged.
proof fn lemma_commit_all_preserves_other(
    s: Seq<PageRecordModel>,
    recs: Seq<PageRecordModel>,
    url: Seq<char>,
    hash: u64,
)
    requires
        forall|i: int| 0 <= i < recs.len() ==> #[trigger] recs[i].url != url,
    ensures
        spec_restore_page(spec_commit_all(s, recs), url, hash) == spec_restore_page(s, url, hash),
    decreases recs.len(),
{
    if recs.len() > 0 {
        crate::cache::lemma_upsert_page_preserves_others(s, recs[0], url, hash);
        lemma_commit_all_preserves_other(spec_upsert_page(s, recs[0]), recs.drop_first(), url, hash);
    }
}

/// A full run over distinct routes fills the cache: afterwards every
/// artifact's route answers with exactly the bytes that run produced.
pub proof fn lemma_first_run_fills_cache(s: Seq<PageRecordModel>, recs: Seq<PageRecordModel>)
    requires
        forall|i: int, j: int| 0 <= i < j < recs.len() ==> recs[i].url != recs[j].url,
    ensures
        forall|i: int|
            0 <= i < recs.len() ==> spec_restore_page(
                spec_commit_all(s, recs),
                (#[trigger] recs[i]).url,
                recs[i].hash,
            ) == Some(recs[i].rendered),
    decreases recs.len(),
{
    if recs.len() > 0 {
        let s1 = spec_upsert_page(s, recs[0]);
        crate::cache::lemma_cache_round_trip(s, recs[0].url, recs[0].hash, recs[0].rendered, recs[0].hash);
        assert(forall|i: int|
            0 <= i < recs.drop_first().len() ==> #[trigger] recs.drop_first()[i].url
                != recs[0].url);
        lemma_commit_all_preserves_other(s1, recs.drop_first(), recs[0].url, recs[0].hash);
        lemma_first_run_fills_cache(s1, recs.drop_first());
        assert forall|i: int|
            0 <= i < recs.len() implies spec_restore_page(
            spec_commit_all(s, recs),
            (#[trigger] recs[i]).url,
            recs[i].hash,
        ) == Some(recs[i].rendered) by {
            if i > 0 {
                assert(recs[i] == recs.drop_first()[i - 1]);
            }
        }
    }
}

/// The run-level idempotence law: after a first run has committed every
/// artifact of a site under its route and digest, a second run over the
/// unchanged sources — no cache flag, no asset change, no template change
/// — restores every artifact with byte-identical output and sends zero
/// artifacts to the render stage.
pub proof fn lemma_idempotent_run(s: Seq<PageRecordModel>, recs: Seq<PageRecordModel>)
    requires
        forall|i: int, j: int| 0 <= i < j < recs.len() ==> recs[i].url != recs[j].url,
    ensures
        forall|i: int|
            0 <= i < recs.len() ==> spec_restore_page(
                spec_commit_all(s, recs),
                (#[trigger] recs[i]).url,
                recs[i].hash,
            ) == Some(recs[i].rendered),
        forall|i: int|
            0 <= i < recs.len() ==> !spec_route_to_render(
                spec_force_render(false, false, false),
                spec_restore_page(
                    spec_commit_all(s, recs),
                    (#[trigger] recs[i]).url,
                    recs[i].hash,
                ) is Some,
                true,
            ),
{
    lemma_first_run_fills_cache(s, recs);
}

/// The markdown face of the same law: a committed markdown row restores
/// its parsed artifact and its rendered bytes at the unchanged digest, so
/// the router forwards it straight to persistence.
pub proof fn lemma_idempotence_markdown(
    markdowns: Seq<crate::cache::MarkdownRecordModel>,
    rec: crate::cache::MarkdownRecordModel,
)
    ensures
        ({
            let committed = crate::cache::spec_upsert_markdown(markdowns, rec);
            &&& crate::cache::spec_restore_markdown(committed, rec.url, rec.hash) == Some(
                (rec.markdown, rec.rendered),
            )
            &&& !spec_route_to_render(
                spec_force_render(false, false, false),
                crate::cache::spec_restore_markdown(committed, rec.url, rec.hash) is Some,
                true,
            )
        }),
{
    crate::cache::lemma_markdown_round_trip(markdowns, rec, rec.hash);
}

// ---------------------------------------------------------------------------
// Global invalidation.
// ---------------------------------------------------------------------------
/// What the template check reports: a change whenever no checkpoint exists
/// yet or a template source is newer than it.
pub open spec fn spec_templates_changed(checkpoint: Option<u64>, files_ts: u64) -> bool {
    match checkpoint {
        Some(c) => c < files_ts,
        None => true,
    }
}

/// Touching any layout template, with zero content changes, bypasses every
/// digest check: the template check reports a change, the run-wide flag
/// goes up, and the router sends every artifact to the render stage —
/// whatever the cache would have answered.
pub proof fn lemma_template_invalidation(
    checkpoint: Option<u64>,
    files_ts: u64,
    hit: bool,
    copy_ok: bool,
)
    requires
        checkpoint matches Some(c) ==> c < files_ts,
    ensures
        spec_templates_changed(checkpoint, files_ts),
        spec_force_render(false, false, spec_templates_changed(checkpoint, files_ts)),
        spec_route_to_render(
            spec_force_render(false, false, spec_templates_changed(checkpoint, files_ts)),
            hit,
            copy_ok,
        ),
{
}

/// Changing one static asset's bytes — and hence its digest — forces a
/// full re-render even though no page content changed: the asset check
/// reports a change, the run-wide flag goes up, and the router sends every
/// artifact to the render stage.
pub proof fn lemma_asset_invalidation(
    assets: Seq<AssetRecordModel>,
    name: Seq<char>,
    new_hash: u64,
    hit: bool,
    copy_ok: bool,
)
    requires
        match crate::cache::spec_find_asset(assets, name) {
            Some(r) => r.hash != new_hash,
            None => true,
        },
    ensures
        spec_asset_changed(assets, name, new_hash),
        spec_force_render(false, spec_asset_changed(assets, name, new_hash), false),
        spec_route_to_render(
            spec_force_render(false, spec_asset_changed(assets, name, new_hash), false),
            hit,
            copy_ok,
        ),
{
}

// ---------------------------------------------------------------------------
// Listing pagination.
// ---------------------------------------------------------------------------
/// Ceiling division, as pagination counts pages.
pub open spec fn spec_ceil_div(total: int, page_size: int) -> int {
    (total + page_size - 1) / page_size
}

/// The number of listing pages for a group: `ceil(total / page_size)`.
pub fn listing_page_count(total: usize, page_size: u8) -> (r: usize)
    requires
        page_size > 0,
    ensures
        r == spec_ceil_div(total as int, page_size as int),
        r * page_size >= total,
        total > 0 ==> r >= 1 && (r - 1) * page_size < total,
        total == 0 ==> r == 0,
{
    let ps = page_size as usize;
    let r = if total == 0 {
        0
    } else {
        1 + (total - 1) / ps
    };
    proof {
        let t = total as int;
        let p = ps as int;
        assert(r == spec_ceil_div(t, p) && r * p >= t && (t > 0 ==> r >= 1 && (r - 1) * p < t))
            by (nonlinear_arith)
            requires
                p > 0,
                t >= 0,
                r == if t == 0 {
                    0int
                } else {
                    1 + (t - 1) / p
                },
        ;
    }
    r
}

/// The staging path of one listing page: `<group>/<index>/index.html`.
pub fn listing_out_path(group_path: &str, index: usize) -> (r: String)
    ensures
        r@ == group_path@ + seq!['/'] + spec_decimal(index as int) + "/index.html"@,
{
    let mut r = group_path.to_owned();
    r.append("/");
    let num = usize_to_string(index);
    r.append(num.as_str());
    r.append("/index.html");
    proof {
        reveal_strlit("/");
        assert("/"@ =~= seq!['/']);
        assert(group_path@ + "/"@ + num@ + "/index.html"@ =~= group_path@ + seq!['/']
            + spec_decimal(index as int) + "/index.html"@);
    }
    r
}

/// The route of one listing page: `/<group>/<index>/`.
pub fn listing_page_link(group_path: &str, index: usize) -> (r: String)
    ensures
        r@ == seq!['/'] + group_path@ + seq!['/'] + spec_decimal(index as int) + seq!['/'],
{
    let mut r = String::new();
    push_char(&mut r, '/');
    r.append(group_path);
    push_char(&mut r, '/');
    let num = usize_to_string(index);
    r.append(num.as_str());
    push_char(&mut r, '/');
    proof {
        assert((((((Seq::<char>::empty().push('/')) + group_path@).push('/')) + spec_decimal(
            index as int,
        )).push('/')) =~= seq!['/'] + group_path@ + seq!['/'] + spec_decimal(index as int)
            + seq!['/']);
    }
    r
}

/// The previous- and next-page links of one listing page: no previous link
/// on page zero, no next link on the last page.
pub fn page_links(group_path: &str, index: usize, page_count: usize) -> (r: (
    Option<String>,
    Option<String>,
))
    requires
        index < page_count,
    ensures
        r.0 is Some <==> index != 0,
        r.1 is Some <==> index + 1 != page_count,
        index != 0 ==> r.0->Some_0@ == seq!['/'] + group_path@ + seq!['/'] + spec_decimal(
            index - 1,
        ) + seq!['/'],
        index + 1 != page_count ==> r.1->Some_0@ == seq!['/'] + group_path@ + seq!['/']
            + spec_decimal(index + 1) + seq!['/'],
{
    let prev = if index == 0 {
        None
    } else {
        Some(listing_page_link(group_path, index - 1))
    };
    let next = if index + 1 == page_count {
        None
    } else {
        Some(listing_page_link(group_path, index + 1))
    };
    (prev, next)
}

/// Lay out every page of one listing group from the cache's read path:
/// page `i` holds the group's rows `i * page_size` through
/// `i * page_size + page_size - 1` in timestamp order.
pub fn generate_listing_pages(cache: &Cache, group_path: &str, page_size: u8) -> (r: Vec<PageData>)
    requires
        page_size > 0,
    ensures
        r@.len() == spec_ceil_div(
            crate::cache::spec_group(cache.markdowns_view(), group_path@).len() as int,
            page_size as int,
        ),
        forall|i: int|
            0 <= i < r@.len() ==> (#[trigger] r@[i] matches PageData::Listing(g, entries, idx)
                && g@ == group_path@ && crate::cache::batch_model(entries@) == spec_fetch_page(
                cache.markdowns_view(),
                group_path@,
                page_size as int,
                i * page_size as int,
            ) && idx == (i as usize, r@.len() as usize)),
{
    let total = cache.get_page_group_count(group_path);
    let page_count = listing_page_count(total, page_size);
    let mut r: Vec<PageData> = Vec::new();
    for i in 0..page_count
        invariant
            page_size > 0,
            total == crate::cache::spec_group(cache.markdowns_view(), group_path@).len(),
            page_count == spec_ceil_div(
                crate::cache::spec_group(cache.markdowns_view(), group_path@).len() as int,
                page_size as int,
            ),
            total == 0 ==> page_count == 0,
            total > 0 ==> (page_count - 1) * (page_size as int) < total as int,
            r@.len() == i,
            forall|j: int|
                0 <= j < i ==> (#[trigger] r@[j] matches PageData::Listing(g, entries, idx)
                    && g@ == group_path@ && crate::cache::batch_model(entries@) == spec_fetch_page(
                    cache.markdowns_view(),
                    group_path@,
                    page_size as int,
                    j * page_size as int,
                ) && idx == (j as usize, page_count as usize)),
    {
        proof {
            assert(total > 0);
            assert(i * (page_size as int) <= (page_count - 1) * (page_size as int))
                by (nonlinear_arith)
                requires
                    0 <= i <= page_count - 1,
                    page_size > 0,
            ;
        }
        let offset = i * page_size as usize;
        let entries = cache.fetch_page(group_path, page_size as usize, offset);
        let page = PageData::Listing(group_path.to_owned(), entries, (i, page_count));
        r.push(page);
    }
    r
}

// ---------------------------------------------------------------------------
// Parsing an artifact on the render path.
// ---------------------------------------------------------------------------
/// What the render stage parses one artifact into: markdown content is
/// parsed in full; template and raw HTML artifacts pass through.
pub fn parse_page_data(site_entry: &crate::common::SiteEntry) -> (r: Result<
    PageData,
    crate::markdown::MarkdownError,
>)
    requires
        crate::common::spec_page_type(site_entry.file.rel_path@) is Some,
    ensures
        match crate::common::spec_page_type(site_entry.file.rel_path@)->Some_0 {
            crate::common::PageType::Markdown => match (r, crate::markdown::spec_parse(
                site_entry.file.contents@,
            )) {
                (Ok(pd), Some(mm)) => pd matches PageData::Markdown(m)
                    && crate::common::markdown_model(m) == mm,
                (Err(e), None) => e == crate::markdown::MarkdownError::ParseError,
                _ => false,
            },
            crate::common::PageType::Liquid => r matches Ok(PageData::Liquid),
            crate::common::PageType::Html => r matches Ok(PageData::Html),
        },
{
    match site_entry.get_page_type() {
        crate::common::PageType::Markdown => {
            match crate::markdown::parse(site_entry.file.contents.as_str()) {
                Ok(m) => Ok(PageData::Markdown(m)),
                Err(_) => Err(crate::markdown::MarkdownError::ParseError),
            }
        },
        crate::common::PageType::Liquid => Ok(PageData::Liquid),
        crate::common::PageType::Html => Ok(PageData::Html),
    }
}

// ---------------------------------------------------------------------------
// The file watcher's decision.
// ---------------------------------------------------------------------------
/// Whether a changed path belongs to the watched source directories.
pub open spec fn spec_watched_path(p: Seq<char>) -> bool {
    ||| crate::text::spec_starts_with(p, "./pages"@)
    ||| crate::text::spec_starts_with(p, "./layouts"@)
    ||| crate::text::spec_starts_with(p, "./blocks"@)
    ||| crate::text::spec_starts_with(p, "./assets"@)
}

/// Whether a batch of changed file paths warrants regenerating the site:
/// exactly when one of them lies under a watched source directory.
pub fn should_regenerate(paths: &Vec<String>) -> (r: bool)
    ensures
        r == exists|i: int| 0 <= i < paths@.len() && spec_watched_path(#[trigger] paths@[i]@),
{
    for i in 0..paths.len()
        invariant
            forall|j: int| 0 <= j < i ==> !spec_watched_path(#[trigger] paths@[j]@),
    {
        let p = paths[i].as_str();
        if crate::text::str_starts_with(p, "./pages") || crate::text::str_starts_with(
            p,
            "./layouts",
        ) || crate::text::str_starts_with(p, "./blocks") || crate::text::str_starts_with(
            p,
            "./assets",
        ) {
            proof {
                assert(spec_watched_path(paths@[i as int]@));
            }
            return true;
        }
    }
    false
}

} // verus!
