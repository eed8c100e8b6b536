//! The panel of diff statistics next to the tree.
use vstd::prelude::*;
use crate::parser::ChangeStatus;

verus! {

/// Label shown for a file's status in the side panel.
pub open spec fn panel_status_text(s: ChangeStatus) -> Seq<char> {
    match s {
        ChangeStatus::Added => "Added"@,
        ChangeStatus::Modified => "Modified"@,
        ChangeStatus::Deleted => "Deleted"@,
        ChangeStatus::Renamed => "Renamed"@,
    }
}

/// Label of a file's status.
pub fn status_label(s: &ChangeStatus) -> (r: &'static str)
    ensures
        r@ == panel_status_text(*s),
{
    match s {
        ChangeStatus::Added => "Added",
        ChangeStatus::Modified => "Modified",
        ChangeStatus::Deleted => "Deleted",
        ChangeStatus::Renamed => "Renamed",
    }
}

/// Style class of a file's status.
pub fn status_class(s: &ChangeStatus) -> (r: &'static str)
    ensures
        r@ == crate::components::diff_viewer::status_style(*s),
{
    crate::components::diff_viewer::status_class(s)
}

} // verus!
