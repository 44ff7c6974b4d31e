//! The entry by which a desktop starts the service at login.

use vstd::prelude::*;
use vstd::string::*;

use crate::pipewire::paths::{below, home, home_of, join, Environment};

verus! {

/// An entry: the directory that it lies in, its path, and what it holds.
#[derive(Debug)]
pub struct Entry {
    pub dir: Vec<u8>,
    pub path: Vec<u8>,
    pub text: String,
}

/// The directory of the entries, which lies below the home directory whatever the XDG
/// variables say.
pub open spec fn entries_dir(env: Environment) -> Seq<u8> {
    below(home_of(env), ".config/autostart".spec_bytes())
}

/// What the entry holds.
pub open spec fn entry_text() -> Seq<char> {
    "[Desktop Entry]\nType=Application\nName=ADtune Calibration Service\nExec=adtune-service\nX-GNOME-Autostart-enabled=true\n"@
}

/// The entry that the service writes for itself. It does so inside a snap only, and where
/// there is a home directory.
pub fn snap_autostart(snap: bool, env: &Environment) -> (r: Option<Entry>)
    ensures
        r is Some <==> snap && env.home is Some,
        r matches Some(e) ==> {
            &&& e.dir@ == entries_dir(*env)
            &&& e.path@ == below(entries_dir(*env), "adtune-service.desktop".spec_bytes())
            &&& e.text@ == entry_text()
        },
{
    if !snap || env.home.is_none() {
        return None;
    }
    let text: String =
        "[Desktop Entry]\nType=Application\nName=ADtune Calibration Service\nExec=adtune-service\nX-GNOME-Autostart-enabled=true\n".to_owned();
    Some(
        Entry {
            dir: join(home(env), ".config/autostart"),
            path: join(join(home(env), ".config/autostart"), "adtune-service.desktop"),
            text,
        },
    )
}

} // verus!
