//! The project layout: where a project keeps its pages, layouts, blocks,
//! assets and output.  Locating the current directory and creating the
//! output directory happen outside the library.

use vstd::prelude::*;

verus! {

use vstd::string::StringExecFns;

/// How configuration can fail.
#[derive(Clone, Copy, Debug, PartialEq, Eq, Structural)]
pub enum ConfigError {
    MissingLayout,
}

/// The directories of one project, rooted at `project_dir`.
pub struct Config {
    pub project_dir: String,
    pub outdir: String,
    pub no_cache: bool,
}

impl Config {
    /// A configuration rooted at the given project directory; output goes
    /// under its `public` directory, and the cache is used.
    pub fn new(project_dir: String) -> (r: Config)
        ensures
            r.project_dir@ == project_dir@,
            r.outdir@ == project_dir@ + "/public"@,
            !r.no_cache,
    {
        let mut outdir = project_dir.clone();
        outdir.append("/public");
        Config { project_dir, outdir, no_cache: false }
    }

    /// The same configuration with the cache switched off or on.
    pub fn with_no_cache(self, no_cache: bool) -> (r: Config)
        ensures
            r.project_dir@ == self.project_dir@,
            r.outdir@ == self.outdir@,
            r.no_cache == no_cache,
    {
        Config { no_cache, ..self }
    }

    /// Where layout templates live.
    pub fn layouts_dir(&self) -> (r: String)
        ensures
            r@ == self.project_dir@ + "/layouts"@,
    {
        let mut r = self.project_dir.clone();
        r.append("/layouts");
        r
    }

    /// Where block templates live.
    pub fn blocks_dir(&self) -> (r: String)
        ensures
            r@ == self.project_dir@ + "/blocks"@,
    {
        let mut r = self.project_dir.clone();
        r.append("/blocks");
        r
    }

    /// Where content pages live.
    pub fn pages_dir(&self) -> (r: String)
        ensures
            r@ == self.project_dir@ + "/pages"@,
    {
        let mut r = self.project_dir.clone();
        r.append("/pages");
        r
    }

    /// Where the published site lives.
    pub fn out_dir(&self) -> (r: String)
        ensures
            r@ == self.project_dir@ + "/public"@,
    {
        let mut r = self.project_dir.clone();
        r.append("/public");
        r
    }

    /// Where static assets live.
    pub fn assets_dir(&self) -> (r: String)
        ensures
            r@ == self.project_dir@ + "/assets"@,
    {
        let mut r = self.project_dir.clone();
        r.append("/assets");
        r
    }
}

} // verus!
