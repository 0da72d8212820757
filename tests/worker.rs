use rust_image_fiddler::worker::{decide, settle, FollowUp, Refusal, RequestKind, WorkerAction, WorkerState};

const EMPTY: WorkerState = WorkerState { image_loaded: false, processed: false };

#[test]
fn requests_without_an_image() {
    assert_eq!(decide(EMPTY, RequestKind::UpdateImage { no_quantize: false }), WorkerAction::Skip);
    assert_eq!(decide(EMPTY, RequestKind::SaveImage), WorkerAction::Refuse(Refusal::NothingToSave));
    assert_eq!(decide(EMPTY, RequestKind::SendOSC), WorkerAction::Refuse(Refusal::NothingToSend));
    assert_eq!(decide(EMPTY, RequestKind::Quit), WorkerAction::Stop);
}

#[test]
fn load_then_process_then_send() {
    let (s, f) = settle(EMPTY, decide(EMPTY, RequestKind::LoadImage), true);
    assert_eq!(f, FollowUp::Update);
    assert_eq!(s, WorkerState { image_loaded: true, processed: false });
    let a = decide(s, RequestKind::UpdateImage { no_quantize: false });
    assert_eq!(a, WorkerAction::Process);
    let (s, f) = settle(s, a, true);
    assert_eq!(f, FollowUp::Nothing);
    assert_eq!(decide(s, RequestKind::SendOSC), WorkerAction::Transmit);
    assert_eq!(decide(s, RequestKind::SaveImage), WorkerAction::Save);
    let a = decide(s, RequestKind::UpdateImage { no_quantize: true });
    assert_eq!(a, WorkerAction::ShowUnquantized);
    let (s, _) = settle(s, a, true);
    assert!(!s.processed);
}

#[test]
fn failures_ask_for_a_clear() {
    let (s, f) = settle(EMPTY, WorkerAction::Load, false);
    assert_eq!((s, f), (EMPTY, FollowUp::Clear));
    let loaded = WorkerState { image_loaded: true, processed: true };
    assert_eq!(settle(loaded, WorkerAction::Process, false), (loaded, FollowUp::Clear));
    assert_eq!(settle(loaded, WorkerAction::Clear, true), (EMPTY, FollowUp::Nothing));
}

#[test]
fn only_updates_are_replaceable() {
    assert!(RequestKind::UpdateImage { no_quantize: true }.is_update());
    assert!(!RequestKind::LoadImage.is_update());
    assert!(!RequestKind::Quit.is_update());
}
