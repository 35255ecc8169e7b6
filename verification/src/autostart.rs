//! The desktop autostart entry: where it lives and what it says.
use crate::text::{cat, join_path, path_join};
use vstd::prelude::*;

verus! {

/// The XDG configuration base: `$XDG_CONFIG_HOME` when set and non-empty,
/// else `<home>/.config`.
pub open spec fn spec_resolve_base(xdg_config_home: Option<Seq<char>>, home: Seq<char>) -> Seq<char> {
    match xdg_config_home {
        Some(v) => if v.len() > 0 {
            v
        } else {
            path_join(home, ".config"@)
        },
        None => path_join(home, ".config"@),
    }
}

pub fn resolve_base(xdg_config_home: Option<&str>, home: &str) -> (r: String)
    ensures
        r@ == spec_resolve_base(
            match xdg_config_home {
                Some(v) => Some(v@),
                None => None,
            },
            home@,
        ),
{
    match xdg_config_home {
        Some(v) => {
            if crate::text::chars_of(v).len() > 0 {
                return v.to_owned();
            }
        },
        None => {},
    }
    join_path(home, ".config")
}

/// `<base>/autostart/laralux.desktop`, the home defaulting to `/root` when
/// `$HOME` is unset.
pub fn autostart_path(xdg_config_home: Option<&str>, home: Option<&str>) -> (r: String)
    ensures
        r@ == path_join(
            path_join(
                spec_resolve_base(
                    match xdg_config_home {
                        Some(v) => Some(v@),
                        None => None,
                    },
                    match home {
                        Some(h) => h@,
                        None => "/root"@,
                    },
                ),
                "autostart"@,
            ),
            "laralux.desktop"@,
        ),
{
    let h = match home {
        Some(h) => h,
        None => "/root",
    };
    let base = resolve_base(xdg_config_home, h);
    let dir = join_path(base.as_str(), "autostart");
    join_path(dir.as_str(), "laralux.desktop")
}

pub open spec fn spec_entry_contents(exec_path: Seq<char>) -> Seq<char> {
    "[Desktop Entry]\nType=Application\nName=Laralux\nExec="@ + exec_path
        + "\nIcon=com.laralux.linux\nTerminal=false\nX-GNOME-Autostart-enabled=true\nComment=Local web-development environment manager\n"@
}

/// The desktop entry that starts the program at `exec_path` on login.
pub fn entry_contents(exec_path: &str) -> (r: String)
    ensures
        r@ == spec_entry_contents(exec_path@),
{
    let mut r = cat("[Desktop Entry]\nType=Application\nName=Laralux\nExec=", exec_path);
    r.append("\nIcon=com.laralux.linux\nTerminal=false\nX-GNOME-Autostart-enabled=true\nComment=Local web-development environment manager\n");
    r
}

} // verus!
