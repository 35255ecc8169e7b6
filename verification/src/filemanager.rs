//! Opening a folder in a file manager: which launcher.
use crate::bin::{first_found, first_resolved};
use crate::text::cat;
use vstd::prelude::*;

verus! {

/// Why no file manager could be opened.
#[derive(Debug)]
pub enum FileManagerError {
    NoFileManager,
    Spawn(String),
}

impl FileManagerError {
    pub fn message(&self) -> (s: String)
        ensures
            s@ == match self {
                FileManagerError::NoFileManager => "no file manager found"@,
                FileManagerError::Spawn(m) => "failed to launch file manager: "@ + m@,
            },
    {
        match self {
            FileManagerError::NoFileManager => "no file manager found".to_owned(),
            FileManagerError::Spawn(m) => cat("failed to launch file manager: ", m.as_str()),
        }
    }
}

/// The launchers that open a directory, `xdg-open` (the user's default)
/// first; each takes the directory as its sole argument.
pub open spec fn file_manager_candidates() -> Seq<Seq<char>> {
    seq!["xdg-open"@, "nautilus"@, "dolphin"@, "thunar"@, "nemo"@, "pcmanfm"@, "caja"@]
}

/// The launchers, in order of preference.
pub fn file_manager_candidates_list() -> (r: Vec<&'static str>)
    ensures
        r@.map_values(|s: &str| s@) == file_manager_candidates(),
{
    let mut c: Vec<&'static str> = Vec::new();
    c.push("xdg-open");
    c.push("nautilus");
    c.push("dolphin");
    c.push("thunar");
    c.push("nemo");
    c.push("pcmanfm");
    c.push("caja");
    assert(c@.map_values(|s: &str| s@) =~= file_manager_candidates());
    c
}

/// The first launcher that `resolve` finds.
pub fn detect_file_manager(resolve: impl Fn(&str) -> Option<String>) -> (r: Option<String>)
    requires
        forall|s: &str| call_requires(resolve, (s,)),
    ensures
        first_found(file_manager_candidates(), resolve, r),
{
    let cands = file_manager_candidates_list();
    first_resolved(&cands, resolve)
}

} // verus!
