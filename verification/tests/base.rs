use security_framework::base::CfError;
use security_framework::base::Error;
use security_framework::base::ErrorNew;
use security_framework::base::MessageResolver;

#[test]
fn error_code_round_trip() {
    let e = Error::from_code(-25293);
    let unified = ErrorNew::from(e);
    assert_eq!(unified.code(), -25293);
    let back = Error::from(unified);
    assert_eq!(back.code(), -25293);
}

#[test]
fn message_is_absent_on_this_target() {
    assert!(Error::from_code(-25293).message().is_none());
    assert!(Error::from_code(0).message().is_none());
    assert!(Error::from_code(i32::MIN).message().is_none());
}

#[test]
fn resolver_strategies() {
    let absent = MessageResolver::Absent;
    assert_eq!(absent.resolve(-25293), None);

    let table = MessageResolver::Table(vec![(
        -25293,
        String::from("The user name or passphrase you entered is not correct."),
    )]);
    let msg = table.resolve(-25293).unwrap();
    assert!(!msg.is_empty());
    assert_eq!(table.resolve(7), None);
}

#[test]
fn display_falls_back_to_code() {
    assert_eq!(Error::from_code(-25293).display_string(), "error code -25293");
    assert_eq!(Error::from_code(42).display_string(), "error code 42");
    assert_eq!(Error::from_code(0).display_string(), "error code 0");
    assert_eq!(
        Error::from_code(i32::MIN).display_string(),
        "error code -2147483648"
    );
}

#[test]
fn foreign_error_keeps_its_description() {
    let cf = CfError {
        code: -50,
        description: String::from("parameter error"),
    };
    let unified = ErrorNew::from_cf_error(cf);
    assert_eq!(unified.code(), -50);
    assert_eq!(unified.description(), "parameter error");
    let lossy = Error::from(unified);
    assert_eq!(lossy.code(), -50);
}

#[test]
fn native_status_description_is_decimal() {
    let unified = ErrorNew::from_os_status(-26275);
    assert_eq!(unified.code(), -26275);
    assert_eq!(unified.description(), "-26275");
    assert_eq!(ErrorNew::from_os_status(12).description(), "12");
    assert_eq!(ErrorNew::from_os_status(0).description(), "0");
}
