use readat::{cvt, ReadError};
use std::io::{Error, ErrorKind};

#[test]
fn only_an_interruption_is_interrupted() {
    assert!(ReadError::Interrupted.is_interrupted());
    assert!(!ReadError::UnexpectedEof.is_interrupted());
    assert!(!ReadError::Os(4).is_interrupted());
    assert!(!ReadError::Os(0).is_interrupted());
    assert!(!ReadError::Other.is_interrupted());
}

#[test]
fn classify_puts_interruption_first() {
    assert_eq!(ReadError::classify(true, Some(4)), ReadError::Interrupted);
    assert_eq!(ReadError::classify(true, None), ReadError::Interrupted);
    assert_eq!(ReadError::classify(false, Some(5)), ReadError::Os(5));
    assert_eq!(ReadError::classify(false, Some(-1)), ReadError::Os(-1));
    assert_eq!(ReadError::classify(false, None), ReadError::Other);
}

#[test]
fn from_io_keeps_the_code() {
    let eio = Error::from_raw_os_error(libc::EIO);
    let ebadf = Error::from_raw_os_error(libc::EBADF);
    assert_eq!(ReadError::from_io(&eio), ReadError::Os(libc::EIO));
    assert_eq!(ReadError::from_io(&ebadf), ReadError::Os(libc::EBADF));
    assert_ne!(
        ReadError::from_io(&Error::from_raw_os_error(libc::EIO)),
        ReadError::from_io(&Error::from_raw_os_error(libc::EBADF))
    );
}

#[test]
fn from_io_knows_an_interruption() {
    assert_eq!(ReadError::from_io(&Error::from_raw_os_error(libc::EINTR)), ReadError::Interrupted);
    assert_eq!(ReadError::from_io(&Error::from(ErrorKind::Interrupted)), ReadError::Interrupted);
}

#[test]
fn from_io_without_a_code_is_other() {
    assert_eq!(ReadError::from_io(&Error::new(ErrorKind::Other, "no code")), ReadError::Other);
    assert_eq!(ReadError::from_io(&Error::from(ErrorKind::UnexpectedEof)), ReadError::Other);
}

#[test]
fn cvt_hands_a_count_on() {
    assert_eq!(cvt(0), Ok(0));
    assert_eq!(cvt(1), Ok(1));
    assert_eq!(cvt(32), Ok(32));
    assert_eq!(cvt(isize::MAX), Ok(isize::MAX));
}

#[test]
fn cvt_takes_only_minus_one_for_failure() {
    assert_eq!(cvt(-2), Ok(-2));
    assert_eq!(cvt(isize::MIN), Ok(isize::MIN));
    assert!(cvt(-1).is_err());
}

#[test]
fn cvt_reports_the_error_of_the_system() {
    let held = Error::last_os_error();
    let got = cvt(-1);
    assert_eq!(got, Err(ReadError::from_io(&held)));
    assert_ne!(got, Err(ReadError::UnexpectedEof));
}

#[test]
fn from_io_gives_one_answer_for_one_value() {
    let e = Error::from_raw_os_error(libc::ENOENT);
    assert_eq!(ReadError::from_io(&e), ReadError::from_io(&e));
    assert_eq!(ReadError::from_io(&e), ReadError::Os(libc::ENOENT));
    let i = Error::from_raw_os_error(libc::EINTR);
    assert_eq!(ReadError::from_io(&i), ReadError::from_io(&i));
    assert_eq!(ReadError::from_io(&i), ReadError::classify(true, Some(libc::EINTR)));
    assert_eq!(ReadError::from_io(&e), ReadError::classify(false, Some(libc::ENOENT)));
}
