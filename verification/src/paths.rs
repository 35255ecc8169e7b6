//! The on-disk layout under the data root (`www/`, `etc/`, `bin/<tool>/<version>`, ...).
use crate::text::{join_path, path_join};
use vstd::prelude::*;

verus! {

/// Resolves the directory layout below one root directory.
#[derive(Clone, Debug)]
pub struct LaragonPaths {
    root: String,
}

/// The same layout under the name the rest of the library uses.
pub type LaraluxPaths = LaragonPaths;

impl LaragonPaths {
    pub closed spec fn root_view(&self) -> Seq<char> {
        self.root@
    }

    /// `root/<sub>`.
    pub open spec fn under(&self, sub: Seq<char>) -> Seq<char> {
        path_join(self.root_view(), sub)
    }

    pub open spec fn spec_bin(&self) -> Seq<char> {
        self.under("bin"@)
    }

    pub open spec fn spec_etc(&self) -> Seq<char> {
        self.under("etc"@)
    }

    pub open spec fn spec_tmp(&self) -> Seq<char> {
        self.under("tmp"@)
    }

    pub open spec fn spec_log(&self) -> Seq<char> {
        self.under("log"@)
    }

    pub open spec fn spec_data(&self) -> Seq<char> {
        self.under("data"@)
    }

    pub open spec fn spec_www(&self) -> Seq<char> {
        self.under("www"@)
    }

    pub open spec fn spec_ssl(&self) -> Seq<char> {
        self.under("ssl"@)
    }

    pub open spec fn spec_etc_for(&self, sub: Seq<char>) -> Seq<char> {
        path_join(self.spec_etc(), sub)
    }

    pub open spec fn spec_tool_dir(&self, tool: Seq<char>) -> Seq<char> {
        path_join(self.spec_bin(), tool)
    }

    pub open spec fn spec_version_dir(&self, tool: Seq<char>, version: Seq<char>) -> Seq<char> {
        path_join(self.spec_tool_dir(tool), version)
    }

    pub open spec fn spec_current_link(&self, tool: Seq<char>) -> Seq<char> {
        path_join(self.spec_tool_dir(tool), "current"@)
    }

    pub fn new(root: String) -> (p: Self)
        ensures
            p.root_view() == root@,
    {
        Self { root }
    }

    pub fn root(&self) -> (r: &str)
        ensures
            r@ == self.root_view(),
    {
        self.root.as_str()
    }

    pub fn www(&self) -> (r: String)
        ensures
            r@ == self.spec_www(),
    {
        join_path(self.root.as_str(), "www")
    }

    pub fn etc(&self) -> (r: String)
        ensures
            r@ == self.spec_etc(),
    {
        join_path(self.root.as_str(), "etc")
    }

    pub fn data(&self) -> (r: String)
        ensures
            r@ == self.spec_data(),
    {
        join_path(self.root.as_str(), "data")
    }

    pub fn log(&self) -> (r: String)
        ensures
            r@ == self.spec_log(),
    {
        join_path(self.root.as_str(), "log")
    }

    pub fn tmp(&self) -> (r: String)
        ensures
            r@ == self.spec_tmp(),
    {
        join_path(self.root.as_str(), "tmp")
    }

    pub fn ssl(&self) -> (r: String)
        ensures
            r@ == self.spec_ssl(),
    {
        join_path(self.root.as_str(), "ssl")
    }

    pub fn bin(&self) -> (r: String)
        ensures
            r@ == self.spec_bin(),
    {
        join_path(self.root.as_str(), "bin")
    }

    pub fn etc_for(&self, sub: &str) -> (r: String)
        ensures
            r@ == self.spec_etc_for(sub@),
    {
        let e = self.etc();
        join_path(e.as_str(), sub)
    }

    /// `root/laragon.toml`.
    pub fn config_file(&self) -> (r: String)
        ensures
            r@ == self.under("laragon.toml"@),
    {
        join_path(self.root.as_str(), "laragon.toml")
    }

    /// `root/sites.toml`: the registry of linked and proxied sites.
    pub fn sites_file(&self) -> (r: String)
        ensures
            r@ == self.under("sites.toml"@),
    {
        join_path(self.root.as_str(), "sites.toml")
    }

    /// `bin/<tool>`.
    pub fn tool_dir(&self, tool: &str) -> (r: String)
        ensures
            r@ == self.spec_tool_dir(tool@),
    {
        let b = self.bin();
        join_path(b.as_str(), tool)
    }

    /// `bin/<tool>/<version>`.
    pub fn version_dir(&self, tool: &str, version: &str) -> (r: String)
        ensures
            r@ == self.spec_version_dir(tool@, version@),
    {
        let t = self.tool_dir(tool);
        join_path(t.as_str(), version)
    }

    /// `bin/<tool>/current`: the symlink naming the active version.
    pub fn current_link(&self, tool: &str) -> (r: String)
        ensures
            r@ == self.spec_current_link(tool@),
    {
        let t = self.tool_dir(tool);
        join_path(t.as_str(), "current")
    }
}

} // verus!
