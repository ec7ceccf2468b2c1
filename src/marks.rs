//! Which files are searched, and how.
use vstd::prelude::*;

use crate::args::Args;
use crate::result::SearchResult;
use crate::searcher::{line_views, new_searcher, result_views, search_results};
use crate::utils::is_listed;

pub use crate::searcher::DocType;

verus! {

/// An extension `ext` (if the file has one) is among `exts`.
pub open spec fn has_extension(exts: Seq<String>, ext: Option<&str>) -> bool {
    match ext {
        Some(e) => exists|i: int| 0 <= i < exts.len() && (#[trigger] exts[i])@ == e@,
        None => false,
    }
}

/// A search run over files.
pub struct Marks<'a> {
    pub args: &'a Args,
}

impl<'a> Marks<'a> {
    pub fn new(args: &'a Args) -> (r: Marks<'a>)
        ensures
            r.args == args,
    {
        Marks { args }
    }

    /// Whether a file or folder named `name` is left out by the options.
    pub fn is_file_blacklisted(&self, name: &str) -> (r: bool)
        ensures
            r == exists|i: int| 0 <= i < self.args.blacklist_folder@.len() && (#[trigger] self.args.blacklist_folder@[i])@ == name@,
    {
        is_listed(&self.args.blacklist_folder, name)
    }

    /// Whether a file with extension `ext` is an outline file.
    pub fn is_org_file(&self, ext: Option<&str>) -> (r: bool)
        ensures
            r == has_extension(self.args.org_extension@, ext),
    {
        match ext {
            Some(x) => is_listed(&self.args.org_extension, x),
            None => false,
        }
    }

    /// Whether a file with extension `ext` is a markdown file.
    pub fn is_md_file(&self, ext: Option<&str>) -> (r: bool)
        ensures
            r == has_extension(self.args.md_extension@, ext),
    {
        match ext {
            Some(x) => is_listed(&self.args.md_extension, x),
            None => false,
        }
    }

    /// Kind of a file with extension `ext`: markdown when its extension is a
    /// markdown one, outline otherwise.
    pub fn get_doc_type(&self, ext: Option<&str>) -> (r: DocType)
        ensures
            r == if has_extension(self.args.md_extension@, ext) {
                DocType::Markdown
            } else {
                DocType::OrgMode
            },
    {
        if self.is_md_file(ext) {
            DocType::Markdown
        } else {
            DocType::OrgMode
        }
    }

    /// Whether a regular file with extension `ext` is searched: outline files
    /// unless they are switched off, and markdown files likewise.
    pub fn is_searched_file(&self, ext: Option<&str>) -> (r: bool)
        ensures
            r == ((!self.args.no_org && has_extension(self.args.org_extension@, ext)) || (
            !self.args.no_markdown && has_extension(self.args.md_extension@, ext))),
    {
        (!self.args.no_org && self.is_org_file(ext)) || (!self.args.no_markdown && self.is_md_file(ext))
    }

    /// Searches the lines of file `filename` (at `file_path`), a file with
    /// extension `ext`.
    pub fn search_file(&self, filename: &str, file_path: &str, ext: Option<&str>, lines: Vec<String>) -> (r: Vec<SearchResult>)
        ensures
            result_views(r@) == search_results(
                *self.args,
                filename@,
                file_path@,
                if has_extension(self.args.md_extension@, ext) {
                    DocType::Markdown
                } else {
                    DocType::OrgMode
                },
                line_views(lines@),
            ),
    {
        let doc_type = self.get_doc_type(ext);
        let mut searcher = new_searcher(self.args, filename, file_path, doc_type, lines);
        searcher.search()
    }
}

} // verus!
