use vstd::prelude::*;

verus! {

/// The physical kind of a drive, as far as the icon choice cares.
#[derive(Clone, Copy, Debug, PartialEq, Eq, Structural)]
pub enum DriveKind {
    Hdd,
    Ssd,
    Other,
}

/// What the drive list reports for one physical drive. Enumerating drives
/// is an outside collaborator's job; this type only carries the values and
/// fixes the icon that each kind of drive gets.
#[derive(Clone, Debug)]
pub struct DriveInfo {
    pub name: String,
    pub kind: String,
    pub total_space: u64,
    pub available_space: u64,
    pub icon: String,
    pub file_system: String,
    pub removable: bool,
}

/// The icon path shown for a drive of the given kind.
pub fn drive_icon(kind: DriveKind) -> (r: &'static str)
    ensures
        kind == DriveKind::Hdd ==> r@ == "../icons/drives/hdd.png"@,
        kind == DriveKind::Ssd ==> r@ == "../icons/drives/ssd.png"@,
        kind == DriveKind::Other ==> r@ == "../icons/drives/default_disk.png"@,
{
    match kind {
        DriveKind::Hdd => "../icons/drives/hdd.png",
        DriveKind::Ssd => "../icons/drives/ssd.png",
        DriveKind::Other => "../icons/drives/default_disk.png",
    }
}

impl DriveInfo {
    /// Packs one drive's reported values, choosing the icon from its kind.
    pub fn new(
        name: String,
        kind: String,
        drive_kind: DriveKind,
        total_space: u64,
        available_space: u64,
        file_system: String,
        removable: bool,
    ) -> (r: DriveInfo)
        ensures
            r.name@ == name@,
            r.kind@ == kind@,
            r.total_space == total_space,
            r.available_space == available_space,
            r.icon@ == drive_icon_spec(drive_kind),
            r.file_system@ == file_system@,
            r.removable == removable,
    {
        let icon_str = drive_icon(drive_kind);
        DriveInfo {
            name,
            kind,
            total_space,
            available_space,
            icon: icon_str.to_owned(),
            file_system,
            removable,
        }
    }
}

/// The icon that `drive_icon` returns for each kind.
pub open spec fn drive_icon_spec(kind: DriveKind) -> Seq<char> {
    match kind {
        DriveKind::Hdd => "../icons/drives/hdd.png"@,
        DriveKind::Ssd => "../icons/drives/ssd.png"@,
        DriveKind::Other => "../icons/drives/default_disk.png"@,
    }
}

} // verus!
