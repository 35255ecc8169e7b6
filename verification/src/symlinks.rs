//! Exposing a tool's terminal commands in `/usr/local/bin`.
use crate::layout::string_views;
use crate::paths::LaragonPaths;
use crate::privileged::{PrivError, Privileged};
use crate::tools::{cli_file, cli_paths, info, spec_clis, str_list, ManagedTool};
use crate::text::{join_path, path_join};
use vstd::prelude::*;

verus! {

pub const SYSTEM_BIN_DIR: &'static str = "/usr/local/bin";

/// Why a tool could not be linked or unlinked.
#[derive(Debug)]
pub enum SymlinkError {
    NoCli,
    NotInstalled,
    Priv(String),
}

impl SymlinkError {
    pub fn message(&self) -> (s: String)
        ensures
            s@ == match self {
                SymlinkError::NoCli => "tool has no terminal CLI to link"@,
                SymlinkError::NotInstalled => "tool is not installed yet"@,
                SymlinkError::Priv(m) => "privileged op failed: "@ + m@,
            },
    {
        match self {
            SymlinkError::NoCli => "tool has no terminal CLI to link".to_owned(),
            SymlinkError::NotInstalled => "tool is not installed yet".to_owned(),
            SymlinkError::Priv(m) => crate::text::cat("privileged op failed: ", m.as_str()),
        }
    }
}

/// `/usr/local/bin/<cli>`.
pub open spec fn system_link(cli: Seq<char>) -> Seq<char> {
    path_join(SYSTEM_BIN_DIR@, cli)
}

/// `/usr/local/bin/<cli>` for the tool's primary terminal command, if any.
pub fn system_link_path(tool: ManagedTool) -> (r: Option<String>)
    ensures
        spec_clis(tool).len() == 0 ==> r is None,
        spec_clis(tool).len() > 0 ==> (r matches Some(p) && p@ == system_link(spec_clis(tool)[0])),
{
    let i = info(tool);
    match i.cli_binary() {
        Some(b) => {
            assert(str_list(i.cli_binaries@)[0] == b@);
            Some(join_path(SYSTEM_BIN_DIR, b))
        },
        None => None,
    }
}

/// `/usr/local/bin/<cli>` for every terminal command the tool ships.
pub fn system_link_paths(tool: ManagedTool) -> (r: Vec<String>)
    ensures
        string_views(r@) == spec_clis(tool).map_values(|c: Seq<char>| system_link(c)),
{
    let i = info(tool);
    let mut r: Vec<String> = Vec::new();
    let mut k: usize = 0;
    while k < i.cli_binaries.len()
        invariant
            0 <= k <= i.cli_binaries@.len(),
            str_list(i.cli_binaries@) == spec_clis(tool),
            string_views(r@) == spec_clis(tool).take(k as int).map_values(|c: Seq<char>| system_link(c)),
        decreases i.cli_binaries@.len() - k,
    {
        let ghost before = string_views(r@);
        let b = i.cli_binaries[k];
        assert(str_list(i.cli_binaries@)[k as int] == b@);
        r.push(join_path(SYSTEM_BIN_DIR, b));
        assert(string_views(r@) =~= before.push(system_link(b@)));
        assert(spec_clis(tool).take(k + 1).map_values(|c: Seq<char>| system_link(c)) =~= spec_clis(tool).take(k as int).map_values(
            |c: Seq<char>| system_link(c),
        ).push(system_link(spec_clis(tool)[k as int])));
        k = k + 1;
    }
    assert(spec_clis(tool).take(k as int) =~= spec_clis(tool));
    r
}

/// The `(source, link)` pairs of the commands that exist, in order.
pub open spec fn present_links(paths: LaragonPaths, tool: ManagedTool, present: Seq<bool>, n: int) -> Seq<(Seq<char>, Seq<char>)>
    decreases n,
{
    if n <= 0 {
        seq![]
    } else {
        let prev = present_links(paths, tool, present, n - 1);
        let c = spec_clis(tool)[n - 1];
        if present[n - 1] {
            prev.push((cli_file(paths, tool, c), system_link(c)))
        } else {
            prev
        }
    }
}

pub open spec fn pair_views(v: Seq<(String, String)>) -> Seq<(Seq<char>, Seq<char>)> {
    v.map_values(|p: (String, String)| (p.0@, p.1@))
}

/// What linking a tool takes: `present[i]` says whether the tool's `i`-th
/// terminal command exists. No command: `NoCli`; the primary one missing:
/// `NotInstalled`; otherwise a link for each command present (the absent
/// secondary ones are skipped).
pub fn link_plan(paths: &LaragonPaths, tool: ManagedTool, present: &[bool]) -> (r: Result<Vec<(String, String)>, SymlinkError>)
    requires
        present@.len() == spec_clis(tool).len(),
    ensures
        spec_clis(tool).len() == 0 <==> r matches Err(SymlinkError::NoCli),
        spec_clis(tool).len() > 0 && !present[0] <==> r matches Err(SymlinkError::NotInstalled),
        r is Ok <==> spec_clis(tool).len() > 0 && present[0],
        r matches Ok(pairs) ==> pair_views(pairs@) == present_links(*paths, tool, present@, spec_clis(tool).len() as int),
{
    let all = cli_paths(tool, paths);
    if all.len() == 0 {
        return Err(SymlinkError::NoCli);
    }
    if !present[0] {
        return Err(SymlinkError::NotInstalled);
    }
    let mut pairs: Vec<(String, String)> = Vec::new();
    let mut i: usize = 0;
    while i < all.len()
        invariant
            0 <= i <= all@.len(),
            all@.len() == spec_clis(tool).len(),
            present@.len() == spec_clis(tool).len(),
            forall|j: int|
                0 <= j < all@.len() ==> (#[trigger] all@[j]).0@ == spec_clis(tool)[j] && all@[j].1@ == cli_file(*paths, tool, spec_clis(tool)[j]),
            pair_views(pairs@) == present_links(*paths, tool, present@, i as int),
        decreases all@.len() - i,
    {
        if present[i] {
            let ghost before = pair_views(pairs@);
            let (name, src) = (all[i].0, all[i].1.clone());
            pairs.push((src, join_path(SYSTEM_BIN_DIR, name)));
            assert(pair_views(pairs@) =~= before.push((cli_file(*paths, tool, spec_clis(tool)[i as int]), system_link(spec_clis(tool)[i as int]))));
        }
        i = i + 1;
    }
    Ok(pairs)
}

/// Symlink every present terminal command of the tool into
/// `/usr/local/bin`: the links of [`link_plan`], all created under one
/// privileged call (one escalation prompt); its failure is reported. Also
/// gives the pairs handed to that call, with whether it succeeded (none
/// when no call was made).
pub fn link_tool(paths: &LaragonPaths, tool: ManagedTool, present: &[bool], privileged: &dyn Privileged) -> (r: (
    Result<(), SymlinkError>,
    Ghost<Option<(Seq<(Seq<char>, Seq<char>)>, bool)>>,
))
    requires
        present@.len() == spec_clis(tool).len(),
    ensures
        spec_clis(tool).len() == 0 <==> r.0 matches Err(SymlinkError::NoCli),
        spec_clis(tool).len() > 0 && !present[0] <==> r.0 matches Err(SymlinkError::NotInstalled),
        !(spec_clis(tool).len() > 0 && present[0]) ==> r.1@ is None,
        spec_clis(tool).len() > 0 && present[0] ==> (r.1@ matches Some(call) && call.0 == present_links(
            *paths,
            tool,
            present@,
            spec_clis(tool).len() as int,
        ) && (call.1 ==> r.0 is Ok) && (!call.1 ==> r.0 matches Err(SymlinkError::Priv(_)))),
{
    let pairs = match link_plan(paths, tool, present) {
        Ok(p) => p,
        Err(e) => return (Err(e), Ghost(None)),
    };
    let ghost handed = pair_views(pairs@);
    match privileged.create_symlinks(pairs.as_slice()) {
        Ok(()) => (Ok(()), Ghost(Some((handed, true)))),
        Err(e) => (Err(SymlinkError::Priv(e.message())), Ghost(Some((handed, false)))),
    }
}

/// Remove every `/usr/local/bin` link the tool owns, under one privileged
/// call (one escalation prompt); `NoCli` for a tool without terminal
/// commands; the call's failure is reported. Also gives the links handed to
/// that call, with whether it succeeded (none when no call was made).
pub fn unlink_tool(tool: ManagedTool, privileged: &dyn Privileged) -> (r: (Result<(), SymlinkError>, Ghost<Option<(Seq<Seq<char>>, bool)>>))
    ensures
        spec_clis(tool).len() == 0 <==> r.0 matches Err(SymlinkError::NoCli),
        spec_clis(tool).len() == 0 ==> r.1@ is None,
        spec_clis(tool).len() > 0 ==> (r.1@ matches Some(call) && call.0 == spec_clis(tool).map_values(|c: Seq<char>| system_link(c))
            && (call.1 ==> r.0 is Ok) && (!call.1 ==> r.0 matches Err(SymlinkError::Priv(_)))),
{
    let dsts = system_link_paths(tool);
    assert(string_views(dsts@).len() == dsts@.len());
    if dsts.len() == 0 {
        return (Err(SymlinkError::NoCli), Ghost(None));
    }
    let ghost handed = string_views(dsts@);
    match privileged.remove_symlinks(dsts.as_slice()) {
        Ok(()) => (Ok(()), Ghost(Some((handed, true)))),
        Err(e) => (Err(SymlinkError::Priv(e.message())), Ghost(Some((handed, false)))),
    }
}

} // verus!
