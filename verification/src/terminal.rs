//! Opening a terminal in a folder: which emulator, and its flags.
use crate::bin::{first_found, first_resolved};
use crate::layout::string_views;
use crate::text::{cat, str_eq};
use vstd::prelude::*;

verus! {

/// Why no terminal could be opened.
#[derive(Debug)]
pub enum TerminalError {
    NoTerminal,
    Spawn(String),
}

impl TerminalError {
    pub fn message(&self) -> (s: String)
        ensures
            s@ == match self {
                TerminalError::NoTerminal => "no terminal emulator found"@,
                TerminalError::Spawn(m) => "failed to launch terminal: "@ + m@,
            },
    {
        match self {
            TerminalError::NoTerminal => "no terminal emulator found".to_owned(),
            TerminalError::Spawn(m) => cat("failed to launch terminal: ", m.as_str()),
        }
    }
}

/// The emulators tried after `$TERMINAL`, in order.
pub open spec fn terminal_candidates() -> Seq<Seq<char>> {
    seq![
        "x-terminal-emulator"@,
        "gnome-terminal"@,
        "ptyxis"@,
        "konsole"@,
        "xfce4-terminal"@,
        "kitty"@,
        "alacritty"@,
        "wezterm"@,
        "xterm"@,
    ]
}

/// The working-directory arguments a known emulator takes (by basename);
/// an unknown one gets none and relies on the spawned process's directory.
pub open spec fn spec_terminal_argv(emulator: Seq<char>, d: Seq<char>) -> Seq<Seq<char>> {
    if emulator == "ptyxis"@ {
        seq!["--standalone"@, "--new-window"@, "--working-directory="@ + d]
    } else if emulator == "gnome-terminal"@ || emulator == "xfce4-terminal"@ || emulator == "tilix"@ {
        seq!["--working-directory="@ + d]
    } else if emulator == "konsole"@ {
        seq!["--workdir"@, d]
    } else if emulator == "kitty"@ {
        seq!["--directory"@, d]
    } else if emulator == "alacritty"@ {
        seq!["--working-directory"@, d]
    } else if emulator == "wezterm"@ {
        seq!["start"@, "--cwd"@, d]
    } else {
        seq![]
    }
}

/// Working-directory arguments for a known terminal emulator.
pub fn terminal_argv(emulator: &str, dir: &str) -> (r: Vec<String>)
    ensures
        string_views(r@) == spec_terminal_argv(emulator@, dir@),
{
    let mut r: Vec<String> = Vec::new();
    if str_eq(emulator, "ptyxis") {
        r.push("--standalone".to_owned());
        r.push("--new-window".to_owned());
        r.push(cat("--working-directory=", dir));
    } else if str_eq(emulator, "gnome-terminal") || str_eq(emulator, "xfce4-terminal") || str_eq(emulator, "tilix") {
        r.push(cat("--working-directory=", dir));
    } else if str_eq(emulator, "konsole") {
        r.push("--workdir".to_owned());
        r.push(dir.to_owned());
    } else if str_eq(emulator, "kitty") {
        r.push("--directory".to_owned());
        r.push(dir.to_owned());
    } else if str_eq(emulator, "alacritty") {
        r.push("--working-directory".to_owned());
        r.push(dir.to_owned());
    } else if str_eq(emulator, "wezterm") {
        r.push("start".to_owned());
        r.push("--cwd".to_owned());
        r.push(dir.to_owned());
    }
    assert(string_views(r@) =~= spec_terminal_argv(emulator@, dir@));
    r
}

/// The emulators to try, in order: `$TERMINAL` when set and non-empty,
/// then the known candidates.
pub open spec fn spec_terminal_order(env_terminal: Option<Seq<char>>) -> Seq<Seq<char>> {
    match env_terminal {
        Some(t) => if t.len() > 0 {
            seq![t] + terminal_candidates()
        } else {
            terminal_candidates()
        },
        None => terminal_candidates(),
    }
}

/// The default terminal emulator: the first of `$TERMINAL` and the known
/// candidates that `resolve` finds.
pub fn detect_terminal(env_terminal: Option<&str>, resolve: impl Fn(&str) -> Option<String>) -> (r: Option<String>)
    requires
        forall|s: &str| call_requires(resolve, (s,)),
    ensures
        first_found(
            spec_terminal_order(
                match env_terminal {
                    Some(t) => Some(t@),
                    None => None,
                },
            ),
            resolve,
            r,
        ),
{
    let mut cands: Vec<&str> = Vec::new();
    match env_terminal {
        Some(t) => {
            if crate::text::chars_of(t).len() > 0 {
                cands.push(t);
            }
        },
        None => {},
    }
    let ghost head = cands@;
    cands.push("x-terminal-emulator");
    cands.push("gnome-terminal");
    cands.push("ptyxis");
    cands.push("konsole");
    cands.push("xfce4-terminal");
    cands.push("kitty");
    cands.push("alacritty");
    cands.push("wezterm");
    cands.push("xterm");
    let ghost order = spec_terminal_order(
        match env_terminal {
            Some(t) => Some(t@),
            None => None,
        },
    );
    assert(cands@.map_values(|s: &str| s@) =~= order);
    first_resolved(&cands, resolve)
}

} // verus!
