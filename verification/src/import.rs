//! The file-import state machine: a five-phase asynchronous acquisition
//! of a document file. The host side opens the dialog and polls the task;
//! this module owns every decision. Only one import is in flight, and a
//! reset from any phase returns to the inactive state and discards a late
//! dialog result.

use vstd::prelude::*;

verus! {

/// The phase of the file import.
#[derive(Clone, Copy, Debug, PartialEq, Eq, Structural)]
pub enum FileImportState {
    /// No import is in flight.
    Inactive,
    /// The user asked to import; the dialog is about to open.
    Select,
    /// The dialog task is running; its result is polled every tick.
    Poll,
    /// A path was chosen; the document is being loaded.
    Load,
    /// The load finished; the stored path is being removed.
    CleanUp,
}

/// What the host loop observed this tick.
#[derive(Clone, Copy, Debug, PartialEq, Eq, Structural)]
pub enum ImportEvent {
    /// The user triggered the import command.
    Requested,
    /// The dialog task was spawned.
    DialogOpened,
    /// The dialog returned with a chosen file.
    FileChosen,
    /// The dialog was dismissed without a choice.
    DialogCancelled,
    /// The document finished loading.
    Loaded,
    /// The stored path record was removed.
    CleanedUp,
    /// The user or the host asked to abandon the import.
    Reset,
}

/// What the host loop must do next.
#[derive(Clone, Copy, Debug, PartialEq, Eq, Structural)]
pub enum ImportAction {
    /// Nothing: the event did not apply in this phase.
    Idle,
    /// Open the native file dialog in a background task.
    OpenDialog,
    /// Poll the dialog task.
    PollTask,
    /// Load the document at the stored path.
    LoadDocument,
    /// Remove the stored path record.
    RemovePath,
    /// Drop the task handle and the stored path.
    Discard,
}

impl FileImportState {
    /// The phase that follows this one in the import cycle.
    pub fn next(&self) -> (r: FileImportState)
        ensures
            r == match *self {
                FileImportState::Inactive => FileImportState::Select,
                FileImportState::Select => FileImportState::Poll,
                FileImportState::Poll => FileImportState::Load,
                FileImportState::Load => FileImportState::CleanUp,
                FileImportState::CleanUp => FileImportState::Inactive,
            },
    {
        match *self {
            FileImportState::Inactive => FileImportState::Select,
            FileImportState::Select => FileImportState::Poll,
            FileImportState::Poll => FileImportState::Load,
            FileImportState::Load => FileImportState::CleanUp,
            FileImportState::CleanUp => FileImportState::Inactive,
        }
    }

    /// Abandon the import from any phase.
    pub fn reset(&self) -> (r: FileImportState)
        ensures
            r is Inactive,
    {
        FileImportState::Inactive
    }

    /// One step of the machine: from a phase and an observed event to the
    /// next phase and the action the host must perform. A dismissed
    /// dialog or a reset returns to the inactive phase; an event that
    /// does not belong to the phase changes nothing.
    pub fn step(&self, event: ImportEvent) -> (r: (FileImportState, ImportAction))
        ensures
            r == match (*self, event) {
                (FileImportState::Inactive, ImportEvent::Requested) => (
                    FileImportState::Select,
                    ImportAction::OpenDialog,
                ),
                (FileImportState::Select, ImportEvent::DialogOpened) => (
                    FileImportState::Poll,
                    ImportAction::PollTask,
                ),
                (FileImportState::Poll, ImportEvent::FileChosen) => (
                    FileImportState::Load,
                    ImportAction::LoadDocument,
                ),
                (FileImportState::Poll, ImportEvent::DialogCancelled) => (
                    FileImportState::Inactive,
                    ImportAction::Discard,
                ),
                (FileImportState::Load, ImportEvent::Loaded) => (
                    FileImportState::CleanUp,
                    ImportAction::RemovePath,
                ),
                (FileImportState::CleanUp, ImportEvent::CleanedUp) => (
                    FileImportState::Inactive,
                    ImportAction::Idle,
                ),
                (_, ImportEvent::Reset) => (FileImportState::Inactive, ImportAction::Discard),
                _ => (*self, ImportAction::Idle),
            },
            event is Reset ==> r.0 is Inactive,
            *self is Inactive && !(event is Requested) ==> r.0 is Inactive,
    {
        match (*self, event) {
            (FileImportState::Inactive, ImportEvent::Requested) => (
                FileImportState::Select,
                ImportAction::OpenDialog,
            ),
            (FileImportState::Select, ImportEvent::DialogOpened) => (
                FileImportState::Poll,
                ImportAction::PollTask,
            ),
            (FileImportState::Poll, ImportEvent::FileChosen) => (
                FileImportState::Load,
                ImportAction::LoadDocument,
            ),
            (FileImportState::Poll, ImportEvent::DialogCancelled) => (
                FileImportState::Inactive,
                ImportAction::Discard,
            ),
            (FileImportState::Load, ImportEvent::Loaded) => (
                FileImportState::CleanUp,
                ImportAction::RemovePath,
            ),
            (FileImportState::CleanUp, ImportEvent::CleanedUp) => (
                FileImportState::Inactive,
                ImportAction::Idle,
            ),
            (_, ImportEvent::Reset) => (FileImportState::Inactive, ImportAction::Discard),
            _ => (*self, ImportAction::Idle),
        }
    }
}

} // verus!
