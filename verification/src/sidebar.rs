//! Well-known sidebar locations: a fixed set of folders under the user's
//! home directory plus two optional services, assembled from the home path
//! and two presence flags. Not ranked and not scored.

use vstd::prelude::*;
use vstd::string::StringExecFns;

verus! {

/// A named well-known location shown in the sidebar.
#[derive(Clone)]
pub struct SidebarItem {
    pub name: String,
    pub path: String,
}

/// The home path with a suffix appended.
fn join_home(home: &str, suffix: &str) -> (r: String)
    ensures
        r@ == home@ + suffix@,
{
    let mut s = String::from_str(home);
    s.append(suffix);
    s
}

/// The sidebar locations for the given home directory: the eight standard
/// folders always, then Dropbox and iCloud Drive when the caller found
/// their folders to exist.
pub fn sidebar_locations(home: &str, has_dropbox: bool, has_icloud: bool) -> (r: Vec<SidebarItem>)
    ensures
        r@.len() == 8 + (if has_dropbox {
            1int
        } else {
            0int
        }) + (if has_icloud {
            1int
        } else {
            0int
        }),
        r@[0].name@ == "Home"@ && r@[0].path@ == home@,
        r@[1].name@ == "Desktop"@ && r@[1].path@ == home@ + "/Desktop"@,
        r@[2].name@ == "Documents"@ && r@[2].path@ == home@ + "/Documents"@,
        r@[3].name@ == "Downloads"@ && r@[3].path@ == home@ + "/Downloads"@,
        r@[4].name@ == "Applications"@ && r@[4].path@ == "/Applications"@,
        r@[5].name@ == "Music"@ && r@[5].path@ == home@ + "/Music"@,
        r@[6].name@ == "Pictures"@ && r@[6].path@ == home@ + "/Pictures"@,
        r@[7].name@ == "Movies"@ && r@[7].path@ == home@ + "/Movies"@,
        has_dropbox ==> r@[8].name@ == "Dropbox"@ && r@[8].path@ == home@ + "/Dropbox"@,
        has_icloud ==> {
            let i = if has_dropbox {
                9int
            } else {
                8int
            };
            r@[i].name@ == "iCloud Drive"@ && r@[i].path@ == home@
                + "/Library/Mobile Documents/com~apple~CloudDocs"@
        },
{
    let mut locations: Vec<SidebarItem> = Vec::new();
    locations.push(
        SidebarItem { name: String::from_str("Home"), path: String::from_str(home) },
    );
    locations.push(
        SidebarItem { name: String::from_str("Desktop"), path: join_home(home, "/Desktop") },
    );
    locations.push(
        SidebarItem { name: String::from_str("Documents"), path: join_home(home, "/Documents") },
    );
    locations.push(
        SidebarItem { name: String::from_str("Downloads"), path: join_home(home, "/Downloads") },
    );
    locations.push(
        SidebarItem {
            name: String::from_str("Applications"),
            path: String::from_str("/Applications"),
        },
    );
    locations.push(
        SidebarItem { name: String::from_str("Music"), path: join_home(home, "/Music") },
    );
    locations.push(
        SidebarItem { name: String::from_str("Pictures"), path: join_home(home, "/Pictures") },
    );
    locations.push(
        SidebarItem { name: String::from_str("Movies"), path: join_home(home, "/Movies") },
    );
    if has_dropbox {
        locations.push(
            SidebarItem { name: String::from_str("Dropbox"), path: join_home(home, "/Dropbox") },
        );
    }
    if has_icloud {
        locations.push(
            SidebarItem {
                name: String::from_str("iCloud Drive"),
                path: join_home(home, "/Library/Mobile Documents/com~apple~CloudDocs"),
            },
        );
    }
    locations
}

} // verus!
