//! The systemd user service that starts the application on login.

use vstd::prelude::*;
use crate::paths::{config_dir, join, join_all, path_under, push_component};

verus! {

/// File name of the unit.
pub const SERVICE_NAME: &'static str = "clipdeck.service";

/// The text of the unit file for the given executable path.
pub open spec fn service_unit(executable: Seq<char>) -> Seq<char> {
    "[Unit]\nDescription=ClipDeck — clipboard manager & launcher\nAfter=graphical-session.target\nPartOf=graphical-session.target\n\n[Service]\nType=simple\nExecStart="@
        + executable
        + "\nRestart=on-failure\nRestartSec=3\n# Give GTK / X11 time to start up\nEnvironment=DISPLAY=:0\nEnvironment=DBUS_SESSION_BUS_ADDRESS=unix:path=/run/user/%U/bus\n\n[Install]\nWantedBy=graphical-session.target\n"@
}

/// Content of the systemd unit file that runs `executable`.
pub fn service_content(executable: &str) -> (s: String)
    ensures
        s@ == service_unit(executable@),
{
    let s = String::from_str(
        "[Unit]\nDescription=ClipDeck — clipboard manager & launcher\nAfter=graphical-session.target\nPartOf=graphical-session.target\n\n[Service]\nType=simple\nExecStart=",
    );
    let s = s.concat(executable);
    s.concat(
        "\nRestart=on-failure\nRestartSec=3\n# Give GTK / X11 time to start up\nEnvironment=DISPLAY=:0\nEnvironment=DBUS_SESSION_BUS_ADDRESS=unix:path=/run/user/%U/bus\n\n[Install]\nWantedBy=graphical-session.target\n",
    )
}

/// Where the unit file goes under the configuration directory `dir`
/// (`/tmp` when there is none).
pub open spec fn service_path_in(dir: Option<Seq<char>>) -> Seq<char> {
    path_under(dir, seq!["systemd"@, "user"@, "clipdeck.service"@])
}

/// The unit's path, `<config dir>/systemd/user/clipdeck.service`, for the
/// given configuration directory.
pub fn service_path_for(dir: Option<&str>) -> (p: String)
    ensures
        p@ == service_path_in(
            match dir {
                Some(d) => Some(d@),
                None => None,
            },
        ),
{
    let mut p = match dir {
        Some(d) => String::from_str(d),
        None => String::from_str("/tmp"),
    };
    let ghost base = p@;
    push_component(&mut p, "systemd");
    push_component(&mut p, "user");
    push_component(&mut p, SERVICE_NAME);
    proof {
        let s = seq!["systemd"@, "user"@, "clipdeck.service"@];
        assert(s.drop_last() =~= seq!["systemd"@, "user"@]);
        assert(seq!["systemd"@, "user"@].drop_last() =~= seq!["systemd"@]);
        assert(seq!["systemd"@].drop_last() =~= Seq::<Seq<char>>::empty());
        assert(join_all(base, Seq::<Seq<char>>::empty()) == base);
        assert(join_all(base, seq!["systemd"@]) == join(base, "systemd"@));
        assert(join_all(base, seq!["systemd"@, "user"@]) == join(join(base, "systemd"@), "user"@));
    }
    p
}

/// Path where the service file is installed.
pub fn service_path() -> (p: String)
    ensures
        exists|d: Option<Seq<char>>| #[trigger] service_path_in(d) == p@,
{
    match config_dir() {
        Some(d) => service_path_for(Some(d.as_str())),
        None => service_path_for(None),
    }
}

} // verus!
