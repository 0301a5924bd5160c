//! File pickers that are asked for in one frame and opened in the next, when
//! the click that asked for them is over.

use vstd::prelude::*;

verus! {

/// What is to be picked.
#[derive(Debug, PartialEq, Eq)]
pub enum PickKind {
    Folder,
    Files,
    /// Where to save a new archive, with a suggested name.
    Save(String),
}

/// The picker that was asked for, if any.
#[derive(Debug)]
pub struct DeferredPicker {
    pub requested: Option<PickKind>,
}

impl Default for DeferredPicker {
    fn default() -> (r: DeferredPicker)
        ensures
            r.requested is None,
    {
        DeferredPicker { requested: None }
    }
}

impl DeferredPicker {
    pub fn request_folder(&mut self)
        ensures
            final(self).requested == Some(PickKind::Folder),
    {
        self.requested = Some(PickKind::Folder);
    }

    pub fn request_files(&mut self)
        ensures
            final(self).requested == Some(PickKind::Files),
    {
        self.requested = Some(PickKind::Files);
    }

    /// Asks where to save a new archive, suggesting a name.
    pub fn request_save_zip(&mut self, file_name: String)
        ensures
            final(self).requested == Some(PickKind::Save(file_name)),
    {
        self.requested = Some(PickKind::Save(file_name));
    }

    /// The picker to open now; it is then no longer asked for.
    pub fn take(&mut self) -> (r: Option<PickKind>)
        ensures
            r == old(self).requested,
            final(self).requested is None,
    {
        self.requested.take()
    }
}

/// A picker that was asked for is opened once.
pub proof fn law_pickers_open_once(
    picker: &mut DeferredPicker,
    first: Option<PickKind>,
    later: &mut DeferredPicker,
    second: Option<PickKind>,
)
    requires
        call_ensures(DeferredPicker::take, (picker,), first),
        *later == *final(picker),
        call_ensures(DeferredPicker::take, (later,), second),
    ensures
        first == old(picker).requested,
        second is None,
{
}

} // verus!
