use brainfuck_redox_scheme::daemon::{spawn_status, Daemon, Notification, SpawnStatus, READY};
use brainfuck_redox_scheme::error::SchemeError;

#[test]
fn error_numbers_are_those_of_the_system() {
    assert_eq!(SchemeError::NoSuchHandle.errno(), syscall::error::EBADFD);
    assert_eq!(SchemeError::WouldBlock.errno(), syscall::error::EAGAIN);
    assert_eq!(SchemeError::MalformedProgram.errno(), syscall::error::EINVAL);
    assert_eq!(SchemeError::Unrecoverable.errno(), syscall::error::ENOTRECOVERABLE);
    assert_eq!(SchemeError::AccessDenied.errno(), syscall::error::EACCES);
}

#[test]
fn system_error_carries_the_number() {
    assert_eq!(
        SchemeError::NoSuchHandle.into_syscall(),
        syscall::error::Error::new(syscall::error::EBADFD)
    );
    assert_eq!(SchemeError::WouldBlock.into_syscall().errno, syscall::error::EAGAIN);
    assert_eq!(SchemeError::MalformedProgram.into_syscall().errno, 22);
    assert_eq!(SchemeError::Unrecoverable.into_syscall().errno, 131);
    assert_eq!(SchemeError::AccessDenied.into_syscall().errno, 13);
}

#[test]
fn ready_signal_is_zero() {
    let daemon = Daemon::from_descriptor(5);
    assert_eq!(daemon.descriptor(), 5);
    assert_eq!(daemon.ready(), 0);
    assert_eq!(READY, 0);
}

#[test]
fn notification_is_understood() {
    assert_eq!(spawn_status(Notification::Byte(0)), SpawnStatus::Ready);
    assert_eq!(spawn_status(Notification::Byte(1)), SpawnStatus::FailedWith(1));
    assert_eq!(spawn_status(Notification::Byte(255)), SpawnStatus::FailedWith(255));
    assert_eq!(spawn_status(Notification::EndOfFile), SpawnStatus::ExitedSilently);
    assert_eq!(spawn_status(Notification::Failed), SpawnStatus::WaitFailed);
    assert_eq!(
        spawn_status(Notification::Byte(Daemon::from_descriptor(3).ready())),
        SpawnStatus::Ready
    );
}
