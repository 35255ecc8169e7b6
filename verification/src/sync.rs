//! Bringing `/etc/hosts` in line with the sites: the managed block is
//! rewritten only when it would change.
use crate::hosts::{apply_block, spec_apply_block};
use crate::layout::{contains_string, string_views};
use crate::privileged::{PrivError, Privileged};
use crate::sites::{site_views, Site};
use crate::ssl::SslError;
use crate::text::{cat, ends_with, ends_with_str, str_eq};
use vstd::prelude::*;

verus! {

/// Why syncing the sites failed.
#[derive(Debug)]
pub enum SyncError {
    Io(String),
    Ssl(SslError),
    Priv(PrivError),
}

impl SyncError {
    pub fn message(&self) -> (s: String)
        ensures
            self matches SyncError::Io(m) ==> s@ == "sync io error: "@ + m@,
    {
        match self {
            SyncError::Io(m) => cat("sync io error: ", m.as_str()),
            SyncError::Ssl(e) => cat("sync ssl error: ", e.message().as_str()),
            SyncError::Priv(e) => cat("sync privileged error: ", e.message().as_str()),
        }
    }
}

/// The hostnames of the sites, in order.
pub open spec fn hostnames_of(sites: Seq<Site>) -> Seq<Seq<char>> {
    sites.map_values(|s: Site| s.hostname@)
}

/// The hostnames of the sites, in order.
pub fn hostnames(sites: &Vec<Site>) -> (r: Vec<String>)
    ensures
        string_views(r@) == hostnames_of(sites@),
{
    let mut r: Vec<String> = Vec::new();
    let mut i: usize = 0;
    while i < sites.len()
        invariant
            0 <= i <= sites@.len(),
            string_views(r@) == hostnames_of(sites@.take(i as int)),
        decreases sites@.len() - i,
    {
        let ghost before = string_views(r@);
        r.push(sites[i].hostname.clone());
        assert(string_views(r@) =~= before.push(sites@[i as int].hostname@));
        assert(hostnames_of(sites@.take(i + 1)) =~= hostnames_of(sites@.take(i as int)).push(sites@[i as int].hostname@));
        i = i + 1;
    }
    assert(sites@.take(i as int) == sites@);
    r
}

/// The new hosts file when the managed block for these sites differs from
/// what `existing` holds; `None` when it is already current.
pub fn hosts_update(existing: &str, sites: &Vec<Site>) -> (r: Option<String>)
    ensures
        ({
            let u = spec_apply_block(existing@, hostnames_of(sites@));
            &&& u == existing@ ==> r is None
            &&& u != existing@ ==> (r matches Some(s) && s@ == u)
        }),
{
    let names = hostnames(sites);
    let updated = apply_block(existing, &names);
    if str_eq(updated.as_str(), existing) {
        None
    } else {
        Some(updated)
    }
}

/// Bring the managed hosts block in line with the sites, writing the hosts
/// file (through `privileged`) only when the block actually changes.
/// Returns whether it was written, and the content handed to the one
/// privileged write (none when the block was current).
pub fn sync_hosts(existing: &str, sites: &Vec<Site>, privileged: &dyn Privileged) -> (r: (Result<bool, SyncError>, Ghost<Option<Seq<char>>>))
    ensures
        ({
            let u = spec_apply_block(existing@, hostnames_of(sites@));
            &&& u == existing@ ==> (r.0 matches Ok(false)) && r.1@ is None
            &&& u != existing@ ==> r.1@ == Some(u) && (r.0 matches Ok(true) || r.0 matches Err(SyncError::Priv(_)))
        }),
{
    match hosts_update(existing, sites) {
        None => (Ok(false), Ghost(None)),
        Some(updated) => {
            let ghost handed = updated@;
            let res = match privileged.write_etc_hosts(updated.as_str()) {
                Ok(()) => Ok(true),
                Err(e) => Err(SyncError::Priv(e)),
            };
            (res, Ghost(Some(handed)))
        },
    }
}

/// The names a site's certificate covers: its local domains, then its
/// public ones.
pub fn cert_names(site: &Site) -> (r: Vec<String>)
    ensures
        string_views(r@) == string_views(site.domains@) + string_views(site.public_domains@),
{
    let mut r: Vec<String> = Vec::new();
    let mut i: usize = 0;
    while i < site.domains.len()
        invariant
            0 <= i <= site.domains@.len(),
            string_views(r@) == string_views(site.domains@).take(i as int),
        decreases site.domains@.len() - i,
    {
        r.push(site.domains[i].clone());
        assert(string_views(site.domains@).take(i + 1) == string_views(site.domains@).take(i as int).push(site.domains@[i as int]@));
        assert(string_views(r@) =~= string_views(site.domains@).take(i + 1));
        i = i + 1;
    }
    assert(string_views(site.domains@).take(i as int) =~= string_views(site.domains@));
    let mut j: usize = 0;
    while j < site.public_domains.len()
        invariant
            0 <= j <= site.public_domains@.len(),
            string_views(r@) == string_views(site.domains@) + string_views(site.public_domains@).take(j as int),
        decreases site.public_domains@.len() - j,
    {
        let ghost before = string_views(r@);
        r.push(site.public_domains[j].clone());
        assert(string_views(r@) =~= before.push(site.public_domains@[j as int]@));
        assert(string_views(site.public_domains@).take(j + 1) =~= string_views(site.public_domains@).take(j as int).push(
            site.public_domains@[j as int]@,
        ));
        j = j + 1;
    }
    assert(string_views(site.public_domains@).take(j as int) =~= string_views(site.public_domains@));
    r
}

/// The vhost file of a site: `<name>.conf`.
pub fn conf_file(site: &Site) -> (r: String)
    ensures
        r@ == site.name@ + ".conf"@,
{
    cat(site.name.as_str(), ".conf")
}

/// A file of the vhost folder that no current site wrote: a `.conf` not
/// among `written`.
pub open spec fn is_stale_conf(name: Seq<char>, written: Seq<Seq<char>>) -> bool {
    ends_with(name, ".conf"@) && !written.contains(name)
}

/// The files of the vhost folder (`present`) to delete after writing the
/// sites' vhosts (`written`): the stale ones, in order.
pub fn stale_confs(present: &Vec<String>, written: &Vec<String>) -> (r: Vec<String>)
    ensures
        string_views(r@) == string_views(present@).filter(|n: Seq<char>| is_stale_conf(n, string_views(written@))),
{
    let ghost src = string_views(present@);
    let ghost w = string_views(written@);
    let mut out: Vec<String> = Vec::new();
    let mut i: usize = 0;
    while i < present.len()
        invariant
            0 <= i <= present@.len(),
            src == string_views(present@),
            w == string_views(written@),
            string_views(out@) == src.take(i as int).filter(|n: Seq<char>| is_stale_conf(n, w)),
        decreases present@.len() - i,
    {
        proof {
            reveal(Seq::filter);
            assert(src.take(i + 1).drop_last() == src.take(i as int));
            assert(src.take(i + 1).last() == present@[i as int]@);
        }
        if ends_with_str(present[i].as_str(), ".conf") && !contains_string(written, present[i].as_str()) {
            out.push(present[i].clone());
            assert(string_views(out@) =~= src.take(i as int).filter(|n: Seq<char>| is_stale_conf(n, w)).push(present@[i as int]@));
        }
        i = i + 1;
    }
    assert(src.take(i as int) == src);
    out
}

} // verus!
