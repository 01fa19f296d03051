//! Where the Windows registry says that Steam is installed.

use vstd::prelude::*;

verus! {

/// The part of the registry that is looked into.
#[derive(Debug, Clone, Copy, PartialEq, Eq, Structural)]
pub enum Hive {
    CurrentUser,
    LocalMachine,
}

/// What is to be done next to find Steam.
#[derive(Debug)]
pub enum SteamLookup {
    /// Read a text from the registry.
    Read { hive: Hive, key: &'static str, value: &'static str },
    /// Steam is installed there.
    Found(String),
    /// Steam is not installed.
    NotFound,
}

/// What a `SteamLookup` says.
pub enum SteamLookupView {
    Read { hive: Hive, key: Seq<char>, value: Seq<char> },
    Found(Seq<char>),
    NotFound,
}

impl View for SteamLookup {
    type V = SteamLookupView;

    open spec fn view(&self) -> SteamLookupView {
        match self {
            SteamLookup::Read { hive, key, value } => SteamLookupView::Read {
                hive: *hive,
                key: key@,
                value: value@,
            },
            SteamLookup::Found(path) => SteamLookupView::Found(path@),
            SteamLookup::NotFound => SteamLookupView::NotFound,
        }
    }
}

/// What follows after a number of places were looked into, the last of which
/// gave a text or nothing. The setting of the user goes before that of the
/// machine.
pub open spec fn lookup_next(looked: nat, found: Option<Seq<char>>) -> SteamLookupView {
    if looked == 0 {
        SteamLookupView::Read {
            hive: Hive::CurrentUser,
            key: "Software\\Valve\\Steam"@,
            value: "SteamPath"@,
        }
    } else if found is Some {
        SteamLookupView::Found(found->0)
    } else if looked == 1 {
        SteamLookupView::Read {
            hive: Hive::LocalMachine,
            key: "SOFTWARE\\WOW6432Node\\Valve\\Steam"@,
            value: "InstallPath"@,
        }
    } else {
        SteamLookupView::NotFound
    }
}

/// Says what is to be done next to find Steam, after a number of places were
/// looked into, the last of which gave a text or nothing.
pub fn find_steam_path(looked: usize, found: Option<String>) -> (r: SteamLookup)
    ensures
        r@ == lookup_next(looked as nat, crate::catalog::optional_view(found)),
{
    if looked == 0 {
        return SteamLookup::Read {
            hive: Hive::CurrentUser,
            key: "Software\\Valve\\Steam",
            value: "SteamPath",
        };
    }
    match found {
        Some(path) => SteamLookup::Found(path),
        None => {
            if looked == 1 {
                SteamLookup::Read {
                    hive: Hive::LocalMachine,
                    key: "SOFTWARE\\WOW6432Node\\Valve\\Steam",
                    value: "InstallPath",
                }
            } else {
                SteamLookup::NotFound
            }
        },
    }
}

/// Where the search for Steam ends, whatever the two places give.
pub open spec fn lookup_run(
    looked: nat,
    found: Option<Seq<char>>,
    of_user: Option<Seq<char>>,
    of_machine: Option<Seq<char>>,
) -> SteamLookupView
    decreases 3 - looked,
{
    match lookup_next(looked, found) {
        SteamLookupView::Read { hive, .. } => if looked < 3 {
            lookup_run(
                looked + 1,
                match hive {
                    Hive::CurrentUser => of_user,
                    Hive::LocalMachine => of_machine,
                },
                of_user,
                of_machine,
            )
        } else {
            lookup_next(looked, found)
        },
        end => end,
    }
}

/// Steam is found where the setting of the user says, else where the setting of
/// the machine says, and else not at all.
pub proof fn user_setting_goes_first(of_user: Option<Seq<char>>, of_machine: Option<Seq<char>>)
    ensures
        lookup_run(0, None, of_user, of_machine) == match (of_user, of_machine) {
            (Some(path), _) => SteamLookupView::Found(path),
            (None, Some(path)) => SteamLookupView::Found(path),
            (None, None) => SteamLookupView::NotFound,
        },
{
    reveal_with_fuel(lookup_run, 4);
}

} // verus!
