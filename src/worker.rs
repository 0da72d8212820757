//! Decisions of the background image worker: what each request leads to,
//! given whether an image is loaded and whether a processed (quantized)
//! version of it exists, and what the worker knows afterwards.
use vstd::prelude::*;

verus! {

/// The kind of a request to the worker; paths and settings stay with the
/// caller.
#[derive(Clone, Copy, PartialEq, Eq, Structural, Debug)]
pub enum RequestKind {
    LoadImage,
    SaveImage,
    ClearImage,
    UpdateImage { no_quantize: bool },
    SendOSC,
    Quit,
}

impl RequestKind {
    /// Whether this is an image update, the kind of request that a newer one
    /// may replace while it is still queued.
    pub fn is_update(&self) -> (r: bool)
        ensures
            r == (self is UpdateImage),
    {
        match self {
            RequestKind::UpdateImage { .. } => true,
            _ => false,
        }
    }
}

/// Why a request cannot be served now.
#[derive(Clone, Copy, PartialEq, Eq, Structural, Debug)]
pub enum Refusal {
    /// Saving needs a processed image.
    NothingToSave,
    /// Sending needs a processed image.
    NothingToSend,
}

/// What the worker does for a request.
#[derive(Clone, Copy, PartialEq, Eq, Structural, Debug)]
pub enum WorkerAction {
    /// Leave the loop.
    Stop,
    /// Read and decode an image file.
    Load,
    /// Write the processed image to a file.
    Save,
    /// Drop both images and reset the display.
    Clear,
    /// No image is loaded: the update has nothing to work on.
    Skip,
    /// Quantize (and scale) the loaded image and show the result.
    Process,
    /// Show the loaded image as it is.
    ShowUnquantized,
    /// Stream the processed image to the device.
    Transmit,
    /// Report that the request cannot be served now.
    Refuse(Refusal),
}

/// A request the worker queues for itself after an action.
#[derive(Clone, Copy, PartialEq, Eq, Structural, Debug)]
pub enum FollowUp {
    Nothing,
    /// Process the newly loaded image with the current settings.
    Update,
    /// Clear after a failure.
    Clear,
}

/// What the worker has.
#[derive(Clone, Copy, PartialEq, Eq, Structural, Debug)]
pub struct WorkerState {
    pub image_loaded: bool,
    pub processed: bool,
}

/// The action for request `r` in state `s`.
pub open spec fn action_for(s: WorkerState, r: RequestKind) -> WorkerAction {
    match r {
        RequestKind::Quit => WorkerAction::Stop,
        RequestKind::LoadImage => WorkerAction::Load,
        RequestKind::SaveImage => if s.processed {
            WorkerAction::Save
        } else {
            WorkerAction::Refuse(Refusal::NothingToSave)
        },
        RequestKind::ClearImage => WorkerAction::Clear,
        RequestKind::UpdateImage { no_quantize } => if !s.image_loaded {
            WorkerAction::Skip
        } else if no_quantize {
            WorkerAction::ShowUnquantized
        } else {
            WorkerAction::Process
        },
        RequestKind::SendOSC => if s.processed {
            WorkerAction::Transmit
        } else {
            WorkerAction::Refuse(Refusal::NothingToSend)
        },
    }
}

/// The state after action `a` taken in state `s` succeeded (`ok`) or
/// failed, and the request to queue next. A failed load or image update
/// leaves the state as it was and asks for a clear.
pub open spec fn outcome_of(s: WorkerState, a: WorkerAction, ok: bool) -> (WorkerState, FollowUp) {
    match a {
        WorkerAction::Load => if ok {
            (WorkerState { image_loaded: true, ..s }, FollowUp::Update)
        } else {
            (s, FollowUp::Clear)
        },
        WorkerAction::Clear => if ok {
            (WorkerState { image_loaded: false, processed: false }, FollowUp::Nothing)
        } else {
            (s, FollowUp::Nothing)
        },
        WorkerAction::Process => if ok {
            (WorkerState { processed: true, ..s }, FollowUp::Nothing)
        } else {
            (s, FollowUp::Clear)
        },
        WorkerAction::ShowUnquantized => if ok {
            (WorkerState { processed: false, ..s }, FollowUp::Nothing)
        } else {
            (s, FollowUp::Clear)
        },
        _ => (s, FollowUp::Nothing),
    }
}

/// Chooses the action for `request`.
pub fn decide(state: WorkerState, request: RequestKind) -> (a: WorkerAction)
    ensures
        a == action_for(state, request),
{
    match request {
        RequestKind::Quit => WorkerAction::Stop,
        RequestKind::LoadImage => WorkerAction::Load,
        RequestKind::SaveImage => if state.processed {
            WorkerAction::Save
        } else {
            WorkerAction::Refuse(Refusal::NothingToSave)
        },
        RequestKind::ClearImage => WorkerAction::Clear,
        RequestKind::UpdateImage { no_quantize } => if !state.image_loaded {
            WorkerAction::Skip
        } else if no_quantize {
            WorkerAction::ShowUnquantized
        } else {
            WorkerAction::Process
        },
        RequestKind::SendOSC => if state.processed {
            WorkerAction::Transmit
        } else {
            WorkerAction::Refuse(Refusal::NothingToSend)
        },
    }
}

/// The state after `action` succeeded (`ok`) or failed, and the request to
/// queue next.
pub fn settle(state: WorkerState, action: WorkerAction, ok: bool) -> (r: (WorkerState, FollowUp))
    ensures
        r == outcome_of(state, action, ok),
{
    match action {
        WorkerAction::Load => if ok {
            (WorkerState { image_loaded: true, ..state }, FollowUp::Update)
        } else {
            (state, FollowUp::Clear)
        },
        WorkerAction::Clear => if ok {
            (WorkerState { image_loaded: false, processed: false }, FollowUp::Nothing)
        } else {
            (state, FollowUp::Nothing)
        },
        WorkerAction::Process => if ok {
            (WorkerState { processed: true, ..state }, FollowUp::Nothing)
        } else {
            (state, FollowUp::Clear)
        },
        WorkerAction::ShowUnquantized => if ok {
            (WorkerState { processed: false, ..state }, FollowUp::Nothing)
        } else {
            (state, FollowUp::Clear)
        },
        _ => (state, FollowUp::Nothing),
    }
}

} // verus!
