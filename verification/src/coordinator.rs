//! Single-flight capture coordination.
//!
//! One capture attempt at a time may drive the external capture facility.
//! The coordinator owns the single-flight lock and the lifecycle of the
//! current attempt: `Idle -> PermissionCheck -> Spawning ->
//! AwaitingCompletion -> done`. The boundary layer performs the outside work
//! (probing for an external capture process, running the zero-duration
//! permission probe, spawning and awaiting the capture process) and feeds
//! the plain results back in; every decision — who gets the lock, how an
//! exit status and destination file combine into an outcome, when a partial
//! artifact must be deleted — is taken here.

use vstd::prelude::*;

use crate::ShotError;
use crate::text::{contains_ci, find_ci};

verus! {

/// The mode-specific flavor of one capture attempt.
#[derive(Clone, Copy, Debug, PartialEq, Eq, Structural)]
pub enum CaptureKind {
    /// User drags a selection rectangle.
    InteractiveRegion,
    /// Whole primary screen, no interaction.
    FullScreen,
    /// User picks a window.
    WindowPick,
    /// Interactive selection whose result feeds text recognition.
    OcrRegion,
}

/// Lifecycle position of the attempt currently holding the single flight,
/// or `Idle` when none does.
#[derive(Clone, Copy, Debug, PartialEq, Eq, Structural)]
pub enum CapturePhase {
    Idle,
    PermissionCheck,
    Spawning,
    AwaitingCompletion,
}

/// How a supervised capture attempt ended.
#[derive(Clone, Copy, Debug, PartialEq, Eq, Structural)]
pub enum CaptureOutcome {
    /// The process succeeded and the destination file exists.
    Completed,
    /// The process exited cleanly but wrote no file: the user dismissed the
    /// interactive selection. A distinguished empty result, not a failure.
    Cancelled,
    /// The process failed; the payload says why.
    Failed(ShotError),
}

/// Serializes access to the external capture facility.
///
/// `locked` is the single-flight lock: true exactly while one attempt is
/// between acquisition and its terminal transition. `phase` is the position
/// of that attempt. Contenders are refused immediately with
/// [`ShotError::CaptureBusy`], never queued.
pub struct CaptureCoordinator {
    locked: bool,
    phase: CapturePhase,
    kind: CaptureKind,
}

impl CaptureCoordinator {
    /// The lock is held exactly while an attempt is in flight.
    pub closed spec fn wf(self) -> bool {
        self.locked <==> !(self.phase is Idle)
    }

    pub closed spec fn spec_locked(self) -> bool {
        self.locked
    }

    pub closed spec fn spec_phase(self) -> CapturePhase {
        self.phase
    }

    pub closed spec fn spec_kind(self) -> CaptureKind {
        self.kind
    }

    /// What `try_begin` does: the state after the call and its result,
    /// as one mathematical function.
    pub closed spec fn begin_transition(
        self,
        kind: CaptureKind,
        external_busy: bool,
    ) -> (CaptureCoordinator, Result<(), ShotError>) {
        if self.locked || external_busy {
            (self, Err(ShotError::CaptureBusy))
        } else {
            (
                CaptureCoordinator {
                    locked: true,
                    phase: CapturePhase::PermissionCheck,
                    kind,
                },
                Ok(()),
            )
        }
    }

    /// A coordinator with the single flight free and no attempt in flight.
    pub fn new() -> (c: CaptureCoordinator)
        ensures
            c.wf(),
            !c.spec_locked(),
            c.spec_phase() is Idle,
    {
        CaptureCoordinator { locked: false, phase: CapturePhase::Idle, kind: CaptureKind::FullScreen }
    }

    /// Tries to take the single flight for one attempt of `kind`.
    ///
    /// `external_busy` is the boundary's report of whether a capture process
    /// not owned by this coordinator is already running; such a report
    /// refuses the attempt exactly as a held lock does, guarding against
    /// double invocation from duplicate hotkey delivery.
    pub fn try_begin(&mut self, kind: CaptureKind, external_busy: bool) -> (r: Result<
        (),
        ShotError,
    >)
        requires
            old(self).wf(),
        ensures
            final(self).wf(),
            (*final(self), r) == old(self).begin_transition(kind, external_busy),
            old(self).spec_locked() ==> r == Err::<(), ShotError>(ShotError::CaptureBusy)
                && *final(self) == *old(self),
            external_busy ==> r == Err::<(), ShotError>(ShotError::CaptureBusy),
            !old(self).spec_locked() && !external_busy ==> r is Ok && final(self).spec_locked()
                && final(self).spec_phase() is PermissionCheck && final(self).spec_kind() == kind,
    {
        if self.locked || external_busy {
            Err(ShotError::CaptureBusy)
        } else {
            self.locked = true;
            self.phase = CapturePhase::PermissionCheck;
            self.kind = kind;
            Ok(())
        }
    }

    /// Records the verdict of the permission probe.
    ///
    /// On denial the attempt ends here: the lock is released and the caller
    /// surfaces [`ShotError::PermissionDenied`]. Otherwise the attempt
    /// advances to `Spawning`.
    pub fn permission_result(&mut self, denied: bool) -> (r: Result<(), ShotError>)
        requires
            old(self).wf(),
            old(self).spec_phase() is PermissionCheck,
        ensures
            final(self).wf(),
            final(self).spec_kind() == old(self).spec_kind(),
            denied ==> r == Err::<(), ShotError>(ShotError::PermissionDenied)
                && !final(self).spec_locked() && final(self).spec_phase() is Idle,
            !denied ==> r is Ok && final(self).spec_locked()
                && final(self).spec_phase() is Spawning,
    {
        if denied {
            self.locked = false;
            self.phase = CapturePhase::Idle;
            Err(ShotError::PermissionDenied)
        } else {
            self.phase = CapturePhase::Spawning;
            Ok(())
        }
    }

    /// Records whether the capture process could be spawned.
    ///
    /// A spawn failure ends the attempt with [`ShotError::ProcessError`] and
    /// releases the lock; success advances to `AwaitingCompletion`.
    pub fn spawn_result(&mut self, spawned: bool) -> (r: Result<(), ShotError>)
        requires
            old(self).wf(),
            old(self).spec_phase() is Spawning,
        ensures
            final(self).wf(),
            final(self).spec_kind() == old(self).spec_kind(),
            !spawned ==> r == Err::<(), ShotError>(ShotError::ProcessError)
                && !final(self).spec_locked() && final(self).spec_phase() is Idle,
            spawned ==> r is Ok && final(self).spec_locked()
                && final(self).spec_phase() is AwaitingCompletion,
    {
        if spawned {
            self.phase = CapturePhase::AwaitingCompletion;
            Ok(())
        } else {
            self.locked = false;
            self.phase = CapturePhase::Idle;
            Err(ShotError::ProcessError)
        }
    }

    /// Classifies the finished capture process and ends the attempt.
    ///
    /// `exit_ok` is the process exit status, `file_exists` whether the
    /// destination file now exists, `denial_in_diagnostics` the verdict of
    /// [`diagnostics_indicate_denial`] on the captured error stream.
    /// Success requires both a clean exit and an existing file; a clean exit
    /// without a file is the user cancelling. The second component of the
    /// result tells the boundary to delete a partially written destination
    /// file before reporting. The lock is released on every path.
    pub fn complete(&mut self, exit_ok: bool, file_exists: bool, denial_in_diagnostics: bool) -> (r:
        (CaptureOutcome, bool))
        requires
            old(self).wf(),
            old(self).spec_phase() is AwaitingCompletion,
        ensures
            final(self).wf(),
            !final(self).spec_locked(),
            final(self).spec_phase() is Idle,
            exit_ok && file_exists ==> r == (CaptureOutcome::Completed, false),
            exit_ok && !file_exists ==> r == (CaptureOutcome::Cancelled, false),
            !exit_ok && denial_in_diagnostics ==> r == (
                CaptureOutcome::Failed(ShotError::PermissionDenied),
                file_exists,
            ),
            !exit_ok && !denial_in_diagnostics ==> r == (
                CaptureOutcome::Failed(ShotError::ProcessError),
                file_exists,
            ),
    {
        self.locked = false;
        self.phase = CapturePhase::Idle;
        if exit_ok {
            if file_exists {
                (CaptureOutcome::Completed, false)
            } else {
                (CaptureOutcome::Cancelled, false)
            }
        } else {
            if denial_in_diagnostics {
                (CaptureOutcome::Failed(ShotError::PermissionDenied), file_exists)
            } else {
                (CaptureOutcome::Failed(ShotError::ProcessError), file_exists)
            }
        }
    }
}

/// Of two capture attempts raced against one coordinator, at most one
/// acquires the single flight; from an idle coordinator with no external
/// capture running, the first acquires it and the second is refused
/// immediately with `CaptureBusy`.
pub proof fn lemma_single_flight_exclusion(
    c0: CaptureCoordinator,
    k1: CaptureKind,
    k2: CaptureKind,
    ext1: bool,
    ext2: bool,
)
    ensures
        !(c0.begin_transition(k1, ext1).1 is Ok && c0.begin_transition(
            k1,
            ext1,
        ).0.begin_transition(k2, ext2).1 is Ok),
        !c0.spec_locked() && !ext1 && !ext2 ==> c0.begin_transition(k1, ext1).1 is Ok
            && c0.begin_transition(k1, ext1).0.begin_transition(k2, ext2).1 == Err::<
            (),
            ShotError,
        >(ShotError::CaptureBusy),
{
}

/// The bytes of the marker `"permission"`.
pub open spec fn marker_permission() -> Seq<u8> {
    seq![112u8, 101u8, 114u8, 109u8, 105u8, 115u8, 115u8, 105u8, 111u8, 110u8]
}

/// The bytes of the marker `"denied"`.
pub open spec fn marker_denied() -> Seq<u8> {
    seq![100u8, 101u8, 110u8, 105u8, 101u8, 100u8]
}

/// The bytes of the marker `"not authorized"`.
pub open spec fn marker_not_authorized() -> Seq<u8> {
    seq![110u8, 111u8, 116u8, 32u8, 97u8, 117u8, 116u8, 104u8, 111u8, 114u8, 105u8, 122u8, 101u8, 100u8]
}

/// Whether the capture facility's diagnostic text carries one of the known
/// permission-denial phrases, compared ASCII-case-insensitively.
pub open spec fn spec_denial_markers(hay: Seq<u8>) -> bool {
    ||| contains_ci(hay, marker_permission())
    ||| contains_ci(hay, marker_denied())
    ||| contains_ci(hay, marker_not_authorized())
}

/// Whether captured diagnostic text carries a permission-denial marker.
///
/// Applied both to the permission probe's error stream and to the error
/// stream of a failed capture, so a denial surfaces as an actionable
/// [`ShotError::PermissionDenied`] instead of a generic process failure.
pub fn diagnostics_indicate_denial(diagnostics: &Vec<u8>) -> (r: bool)
    ensures
        r == spec_denial_markers(diagnostics@),
{
    let m1: [u8; 10] = [112, 101, 114, 109, 105, 115, 115, 105, 111, 110];
    let m2: [u8; 6] = [100, 101, 110, 105, 101, 100];
    let m3: [u8; 14] = [110, 111, 116, 32, 97, 117, 116, 104, 111, 114, 105, 122, 101, 100];
    assert(m1@ =~= marker_permission());
    assert(m2@ =~= marker_denied());
    assert(m3@ =~= marker_not_authorized());
    find_ci(diagnostics.as_slice(), m1.as_slice()) || find_ci(diagnostics.as_slice(), m2.as_slice())
        || find_ci(diagnostics.as_slice(), m3.as_slice())
}

/// The actionable, user-facing line for each error, enriching the raw
/// condition with guidance instead of propagating OS error text.
pub fn error_message(e: ShotError) -> (r: String)
    ensures
        e is CaptureBusy ==> r@ == "Another screenshot capture is already in progress"@,
        e is PermissionDenied ==> r@
            == "Screen Recording permission required. Please grant permission in System Settings > Privacy & Security > Screen Recording and restart the app."@,
        e is ProcessError ==> r@ == "Screenshot was cancelled or failed"@,
        e is InvalidRegion ==> r@ == "Selected region has no area"@,
        e is DecodeError ==> r@ == "Image data could not be decoded"@,
        e is EncodeError ==> r@ == "Image could not be encoded"@,
        e is IoError ==> r@ == "Failed to read or write the image file"@,
{
    match e {
        ShotError::CaptureBusy => "Another screenshot capture is already in progress".to_owned(),
        ShotError::PermissionDenied => "Screen Recording permission required. Please grant permission in System Settings > Privacy & Security > Screen Recording and restart the app.".to_owned(),
        ShotError::ProcessError => "Screenshot was cancelled or failed".to_owned(),
        ShotError::InvalidRegion => "Selected region has no area".to_owned(),
        ShotError::DecodeError => "Image data could not be decoded".to_owned(),
        ShotError::EncodeError => "Image could not be encoded".to_owned(),
        ShotError::IoError => "Failed to read or write the image file".to_owned(),
    }
}

} // verus!
