use vstd::prelude::*;

verus! {

/// What an `open` of the target path returned, sorted by what the creation
/// logic needs to tell apart.
#[derive(PartialEq, Eq, Structural, Clone, Copy, Debug)]
pub enum OpenOutcome {
    /// The file was opened.
    Opened,
    /// The call failed because the file exists.
    Exists,
    /// The call failed because a component of the path does not exist.
    Missing,
    /// The call failed with this other error number.
    Failed(i32),
}

/// The error number that says a component of a path does not exist.
pub const ENOENT: i32 = 2;

/// The error number that says a file exists.
pub const EEXIST: i32 = 17;

/// Why an exclusive creation did not happen.
#[derive(PartialEq, Eq, Structural, Clone, Copy, Debug)]
pub enum CreateError {
    /// The file is already there.
    AlreadyExists,
    /// Any other failure of the system, with its error number.
    Other(i32),
}

/// The result of a create call, from what its `open` returned: success if
/// it opened the file, `AlreadyExists` if the file was there, and `Other`
/// with the error number for any other failure.
pub open spec fn create_result(outcome: OpenOutcome) -> Result<(), CreateError> {
    match outcome {
        OpenOutcome::Opened => Ok(()),
        OpenOutcome::Exists => Err(CreateError::AlreadyExists),
        OpenOutcome::Missing => Err(CreateError::Other(ENOENT)),
        OpenOutcome::Failed(code) => Err(CreateError::Other(code)),
    }
}

/// The result of the atomic exclusive creation, from what its single open
/// (write-only, create, exclusive) returned: success if it created the file,
/// `AlreadyExists` if the file was there, `Other` otherwise.
pub fn exclusive_open(outcome: OpenOutcome) -> (r: Result<(), CreateError>)
    ensures
        r == create_result(outcome),
{
    create_from(outcome)
}

fn create_from(outcome: OpenOutcome) -> (r: Result<(), CreateError>)
    ensures
        r == create_result(outcome),
{
    match outcome {
        OpenOutcome::Opened => Ok(()),
        OpenOutcome::Exists => Err(CreateError::AlreadyExists),
        OpenOutcome::Missing => Err(CreateError::Other(ENOENT)),
        OpenOutcome::Failed(code) => Err(CreateError::Other(code)),
    }
}

/// What the check-then-create form does after its probe, an open for
/// writing without create.
#[derive(PartialEq, Eq, Structural, Clone, Copy, Debug)]
pub enum ProbeStep {
    /// The probe opened the file: close that descriptor, then fail with
    /// `AlreadyExists`.
    CloseAndFail,
    /// The probe failed in a way that ends the operation.
    Fail(CreateError),
    /// The file is absent: sleep first if asked to, then create it.
    Create { sleep: bool },
}

/// The step that follows a probe.
pub open spec fn probe_step(probe: OpenOutcome, sleep: bool) -> ProbeStep {
    match probe {
        OpenOutcome::Opened => ProbeStep::CloseAndFail,
        OpenOutcome::Missing => ProbeStep::Create { sleep },
        OpenOutcome::Exists => ProbeStep::Fail(CreateError::Other(EEXIST)),
        OpenOutcome::Failed(code) => ProbeStep::Fail(CreateError::Other(code)),
    }
}

/// The non-atomic creation's decision after its probe: an existing file
/// fails the call with `AlreadyExists`, an absent one is created next, and
/// any other failure of the probe ends the call with `Other`.
pub fn bad_exclusive_probe(probe: OpenOutcome, sleep: bool) -> (r: ProbeStep)
    ensures
        r == probe_step(probe, sleep),
{
    match probe {
        OpenOutcome::Opened => ProbeStep::CloseAndFail,
        OpenOutcome::Missing => ProbeStep::Create { sleep },
        OpenOutcome::Exists => ProbeStep::Fail(CreateError::Other(EEXIST)),
        OpenOutcome::Failed(code) => ProbeStep::Fail(CreateError::Other(code)),
    }
}

/// The non-atomic creation's result, from what its second open (write-only,
/// create, not exclusive) returned.
pub fn bad_exclusive_create(outcome: OpenOutcome) -> (r: Result<(), CreateError>)
    ensures
        r == create_result(outcome),
{
    create_from(outcome)
}

/// What an open that creates returns on a path, in a file system where the
/// path is present or not, and whether it is present afterwards. With
/// `exclusive`, the check and the creation are one indivisible step.
pub open spec fn os_create(present: bool, exclusive: bool) -> (OpenOutcome, bool) {
    if present && exclusive {
        (OpenOutcome::Exists, true)
    } else {
        (OpenOutcome::Opened, true)
    }
}

/// What an open without create returns on a path.
pub open spec fn os_probe(present: bool) -> OpenOutcome {
    if present {
        OpenOutcome::Opened
    } else {
        OpenOutcome::Missing
    }
}

/// Two atomic exclusive creations of one absent path, in either order:
/// exactly one succeeds, and the other fails with `AlreadyExists`.
pub proof fn lemma_exclusive_open_excludes(first: bool)
    ensures
        ({
            let (o1, present) = os_create(false, true);
            let (o2, _) = os_create(present, true);
            let a = if first { create_result(o1) } else { create_result(o2) };
            let b = if first { create_result(o2) } else { create_result(o1) };
            (a is Ok && b == Err::<(), CreateError>(CreateError::AlreadyExists)) || (b is Ok && a
                == Err::<(), CreateError>(CreateError::AlreadyExists))
        }),
{
}

/// The check-then-create form is not exclusive: on an absent path, when
/// both callers probe before either creates, both succeed.
pub proof fn lemma_bad_exclusive_open_races(sleep_a: bool, sleep_b: bool)
    ensures
        ({
            let probe_a = os_probe(false);
            let probe_b = os_probe(false);
            let (create_a, present) = os_create(false, false);
            let (create_b, _) = os_create(present, false);
            &&& probe_step(probe_a, sleep_a) == ProbeStep::Create { sleep: sleep_a }
            &&& probe_step(probe_b, sleep_b) == ProbeStep::Create { sleep: sleep_b }
            &&& create_result(create_a) is Ok
            &&& create_result(create_b) is Ok
        }),
{
}

} // verus!
