use bmw::error::{CoreErrorKind, ErrKind, Error};

fn ret_err() -> Result<(), Error> {
    Err(Error::base(CoreErrorKind::Parse(format!("this is a test {}", 1))))
}

fn ret_err2() -> Result<(), Error> {
    Err(Error::base(CoreErrorKind::Parse("this is a test".to_string())))
}

fn ret_err3() -> Result<usize, std::num::ParseIntError> {
    "".parse::<usize>()
}

fn map_parse_err<T>(r: Result<T, std::num::ParseIntError>, context: Option<&str>) -> Result<T, Error> {
    match r {
        Ok(v) => Ok(v),
        Err(e) => {
            let kind = CoreErrorKind::Parse(format!("{}", e));
            let kind = match context {
                Some(c) => kind.with_context(c),
                None => kind,
            };
            Err(Error::from(kind))
        }
    }
}

#[test]
fn test_test_error() {
    assert!(ret_err().is_err());
    let err: Error = ret_err().unwrap_err();
    let kind = err.kind();
    assert_eq!(
        kind,
        &ErrKind::Core(CoreErrorKind::Parse("this is a test 1".to_string()))
    );
    assert_ne!(
        kind,
        &ErrKind::Core(CoreErrorKind::Parse("this is a test 2".to_string()))
    );
    let err: Error = ret_err2().unwrap_err();
    assert_eq!(
        err.kind(),
        &ErrKind::Core(CoreErrorKind::Parse("this is a test".to_string()))
    );
}

#[test]
fn test_map_err() {
    let e = map_parse_err(ret_err3(), Some("1")).unwrap_err();
    let exp_text = "1: cannot parse integer from empty string";
    assert_eq!(
        e.kind(),
        &ErrKind::Core(CoreErrorKind::Parse(exp_text.to_string()))
    );

    let e = map_parse_err(ret_err3(), None).unwrap_err();
    let exp_text = "cannot parse integer from empty string";
    assert_eq!(
        e.kind(),
        &ErrKind::Core(CoreErrorKind::Parse(exp_text.to_string()))
    );
}

#[test]
fn test_cbreak() {
    let mut count = 0;
    loop {
        count += 1;
        if count == 10 {
            break;
        }
    }
    assert_eq!(count, 10);
}

#[test]
fn error_kind_message_and_detail() {
    let k = CoreErrorKind::IO("disk gone".to_string());
    assert_eq!(k.detail(), &"disk gone".to_string());
    assert_eq!(k.message(), "i/o error: disk gone".to_string());
    let c = CoreErrorKind::CorruptedData("bad".to_string()).with_context("reading");
    assert_eq!(c, CoreErrorKind::CorruptedData("reading: bad".to_string()));
    assert_eq!(
        CoreErrorKind::TryInto("x".to_string()).message(),
        "try into error: x".to_string()
    );
}

#[test]
fn error_from_core_kind() {
    let e: Error = CoreErrorKind::Utf8("bad bytes".to_string()).into();
    assert_eq!(
        e.kind(),
        &ErrKind::Core(CoreErrorKind::Utf8("bad bytes".to_string()))
    );
    let e = Error::new(ErrKind::Http("bad request".to_string()));
    assert_eq!(e.kind(), &ErrKind::Http("bad request".to_string()));
}
