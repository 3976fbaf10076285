//! The cell that holds the overlay once it has been built.
//!
//! The cell comes from `once_cell`. Verus sees nothing inside it: what it
//! holds has a name, and the functions of this file say what the methods of
//! the cell do to that. A cell is only ever filled or emptied through a
//! unique reference here.
use vstd::prelude::*;
use once_cell::unsync::OnceCell;
use crate::depcache::PkgDepCache;

verus! {

/// `once_cell::unsync::OnceCell`, declared so that it can stand in fields
/// and signatures. Nothing is said of what is inside.
#[verifier::external_type_specification]
#[verifier::external_body]
#[verifier::reject_recursive_types(T)]
pub struct ExOnceCell<T>(OnceCell<T>);

/// What the cell holds: the overlay, or nothing while none has been built.
pub uninterp spec fn cell_overlay(cell: OnceCell<PkgDepCache>) -> Option<PkgDepCache>;

/// `OnceCell::new`: a cell that holds nothing.
#[verifier::external_body]
pub(crate) fn cell_new() -> (cell: OnceCell<PkgDepCache>)
    ensures
        cell_overlay(cell).is_none(),
{
    OnceCell::new()
}

/// `OnceCell::get`: a reference to what the cell holds, if it holds
/// anything.
#[verifier::external_body]
pub(crate) fn cell_get(cell: &OnceCell<PkgDepCache>) -> (held: Option<&PkgDepCache>)
    ensures
        match held {
            Some(overlay) => cell_overlay(*cell) == Some(*overlay),
            None => cell_overlay(*cell).is_none(),
        },
{
    cell.get()
}

/// `OnceCell::take`: what the cell holds is handed out, and the cell holds
/// nothing afterwards.
#[verifier::external_body]
pub(crate) fn cell_take(cell: &mut OnceCell<PkgDepCache>) -> (held: Option<PkgDepCache>)
    ensures
        held == cell_overlay(*old(cell)),
        cell_overlay(*final(cell)).is_none(),
{
    cell.take()
}

/// `OnceCell::set`: an empty cell takes the value and nothing comes back; a
/// full cell stays as it is and the value comes back.
#[verifier::external_body]
pub(crate) fn cell_set(cell: &mut OnceCell<PkgDepCache>, value: PkgDepCache) -> (rejected: Option<PkgDepCache>)
    ensures
        cell_overlay(*old(cell)).is_none() ==> rejected.is_none() && cell_overlay(*final(cell)) == Some(value),
        cell_overlay(*old(cell)).is_some() ==> rejected == Some(value) && cell_overlay(*final(cell))
            == cell_overlay(*old(cell)),
{
    cell.set(value).err()
}

} // verus!
