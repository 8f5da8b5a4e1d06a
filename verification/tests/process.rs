use boxed::process::{exit_code, reap_step, wait_step, ChildStatus, WaitStep, ECHILD, EINTR};

#[test]
fn exit_codes() {
    assert_eq!(exit_code(ChildStatus::Exited(0)), 0);
    assert_eq!(exit_code(ChildStatus::Exited(42)), 42);
    assert_eq!(exit_code(ChildStatus::Exited(127)), 127);
    // SIGKILL is 9, so 128 + 9.
    assert_eq!(exit_code(ChildStatus::Signaled(libc::SIGKILL)), 137);
    assert_eq!(exit_code(ChildStatus::Signaled(libc::SIGSYS)), 128 + libc::SIGSYS);
    assert_eq!(exit_code(ChildStatus::Other), 1);
}

#[test]
fn wait_steps() {
    assert_eq!(wait_step(Ok((Some(5), ChildStatus::Exited(3)))), WaitStep::Finished(3));
    assert_eq!(wait_step(Err(EINTR)), WaitStep::Retry);
    assert_eq!(wait_step(Err(ECHILD)), WaitStep::Failed(ECHILD));
}

#[test]
fn reap_steps() {
    assert_eq!(reap_step(10, Ok((Some(10), ChildStatus::Exited(3)))), WaitStep::Finished(3));
    assert_eq!(
        reap_step(10, Ok((Some(10), ChildStatus::Signaled(libc::SIGTERM)))),
        WaitStep::Finished(128 + libc::SIGTERM)
    );
    // Another child is reaped and the loop goes on.
    assert_eq!(reap_step(10, Ok((Some(11), ChildStatus::Exited(7)))), WaitStep::Retry);
    assert_eq!(reap_step(10, Ok((None, ChildStatus::Other))), WaitStep::Retry);
    assert_eq!(reap_step(10, Err(EINTR)), WaitStep::Retry);
    // No child left must end the loop.
    assert_eq!(reap_step(i32::MAX, Err(ECHILD)), WaitStep::NoChildrenLeft);
    assert_eq!(reap_step(10, Err(libc::EINVAL)), WaitStep::Failed(libc::EINVAL));
}

#[test]
fn errno_constants_match_libc() {
    assert_eq!(EINTR, libc::EINTR);
    assert_eq!(ECHILD, libc::ECHILD);
}
