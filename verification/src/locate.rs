//! Where models and grammars are looked for.

use crate::text::{texts, WordSeq};
use vstd::prelude::*;

verus! {

/// A place to look for a path.
#[derive(Clone, Copy, Debug, PartialEq, Eq, Structural)]
pub enum Location {
    /// The path as it was given.
    Given,
    /// Below the models directory of the application, in the home directory.
    AppSupport,
    /// Beside the executable.
    BesideExe,
    /// In the resources of the application bundle.
    Resources,
}

/// The place that counts. An absolute path, and one that exists as it was given,
/// is taken as it is; then the first place counts at which the path exists.
/// `app_support` says so of the home directory, if there is one, and `exe_dir`
/// of the executable's directory and of the resources, if that is known. A path
/// that exists nowhere stays as it was given.
pub open spec fn place_of(
    absolute: bool,
    exists: bool,
    app_support: Option<bool>,
    exe_dir: Option<(bool, bool)>,
) -> Location {
    if absolute || exists {
        Location::Given
    } else if app_support == Some(true) {
        Location::AppSupport
    } else {
        match exe_dir {
            Some((beside, resources)) => if beside {
                Location::BesideExe
            } else if resources {
                Location::Resources
            } else {
                Location::Given
            },
            None => Location::Given,
        }
    }
}

/// Chooses the place at which a path is opened.
pub fn resolve_relative_to_exe(
    absolute: bool,
    exists: bool,
    app_support: Option<bool>,
    exe_dir: Option<(bool, bool)>,
) -> (place: Location)
    ensures
        place == place_of(absolute, exists, app_support, exe_dir),
{
    if absolute || exists {
        return Location::Given;
    }
    match app_support {
        Some(true) => {
            return Location::AppSupport;
        },
        _ => {},
    }
    match exe_dir {
        Some((true, _)) => Location::BesideExe,
        Some((false, true)) => Location::Resources,
        _ => Location::Given,
    }
}

/// The directories between a place's root (the home directory, or the
/// executable's) and the path. Development builds have a directory of their own.
pub open spec fn directories_of(place: Location, dev: bool) -> WordSeq {
    match place {
        Location::AppSupport => seq![
            "Library/Application Support"@,
            if dev {
                "BranchKitDev"@
            } else {
                "BranchKit"@
            },
            "models/vosk"@,
        ],
        Location::Resources => seq!["../Resources"@],
        Location::Given | Location::BesideExe => seq![],
    }
}

/// Lists the directories between a place's root and the path.
pub fn directories(place: Location, dev: bool) -> (list: Vec<String>)
    ensures
        texts(list@) == directories_of(place, dev),
{
    let mut list: Vec<String> = Vec::new();
    match place {
        Location::AppSupport => {
            list.push("Library/Application Support".to_string());
            if dev {
                list.push("BranchKitDev".to_string());
            } else {
                list.push("BranchKit".to_string());
            }
            list.push("models/vosk".to_string());
        },
        Location::Resources => {
            list.push("../Resources".to_string());
        },
        Location::Given | Location::BesideExe => {},
    }
    assert(texts(list@) =~= directories_of(place, dev));
    list
}

/// The path exists at a place.
pub open spec fn exists_at(
    place: Location,
    exists: bool,
    app_support: Option<bool>,
    exe_dir: Option<(bool, bool)>,
) -> bool {
    match place {
        Location::Given => exists,
        Location::AppSupport => app_support == Some(true),
        Location::BesideExe => exe_dir matches Some((beside, _)) && beside,
        Location::Resources => exe_dir matches Some((_, resources)) && resources,
    }
}

/// A relative path that exists at any place is opened at a place where it exists.
pub proof fn law_existing_path_is_found(
    exists: bool,
    app_support: Option<bool>,
    exe_dir: Option<(bool, bool)>,
    place: Location,
)
    requires
        exists_at(place, exists, app_support, exe_dir),
    ensures
        exists_at(
            place_of(false, exists, app_support, exe_dir),
            exists,
            app_support,
            exe_dir,
        ),
{
}

/// A path that exists nowhere stays as it was given.
pub proof fn law_missing_path_is_kept(
    app_support: Option<bool>,
    exe_dir: Option<(bool, bool)>,
)
    requires
        forall|place: Location| !#[trigger] exists_at(place, false, app_support, exe_dir),
    ensures
        place_of(false, false, app_support, exe_dir) == Location::Given,
{
    assert(!exists_at(Location::AppSupport, false, app_support, exe_dir));
    assert(!exists_at(Location::BesideExe, false, app_support, exe_dir));
    assert(!exists_at(Location::Resources, false, app_support, exe_dir));
}

/// The order in which places count.
pub open spec fn rank(place: Location) -> int {
    match place {
        Location::Given => 0,
        Location::AppSupport => 1,
        Location::BesideExe => 2,
        Location::Resources => 3,
    }
}

/// An absolute path is taken as it is. A relative one is opened at the first place
/// at which it exists.
pub proof fn law_first_place_counts(
    absolute: bool,
    exists: bool,
    app_support: Option<bool>,
    exe_dir: Option<(bool, bool)>,
    place: Location,
)
    ensures
        absolute ==> place_of(absolute, exists, app_support, exe_dir) == Location::Given,
        !absolute && exists_at(place, exists, app_support, exe_dir) ==> rank(
            place_of(absolute, exists, app_support, exe_dir),
        ) <= rank(place),
        !absolute && place_of(absolute, exists, app_support, exe_dir) != Location::Given
            ==> exists_at(
            place_of(absolute, exists, app_support, exe_dir),
            exists,
            app_support,
            exe_dir,
        ),
{
}

/// The directories of each place, from its root on.
pub proof fn law_directories_of_each_place(dev: bool)
    ensures
        directories_of(Location::Given, dev) == WordSeq::empty(),
        directories_of(Location::BesideExe, dev) == WordSeq::empty(),
        directories_of(Location::Resources, dev) == seq!["../Resources"@],
        directories_of(Location::AppSupport, true) == seq![
            "Library/Application Support"@,
            "BranchKitDev"@,
            "models/vosk"@,
        ],
        directories_of(Location::AppSupport, false) == seq![
            "Library/Application Support"@,
            "BranchKit"@,
            "models/vosk"@,
        ],
{
}

} // verus!
