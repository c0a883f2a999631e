use dioscuri::error::Error;
use dioscuri::header::{build_header, parse, status_code_digits, Header, Inner, Status};
use dioscuri::response::Response;

#[test]
fn test_status_code_digits() {
    assert_eq!(Some((" text/gemini", 20)), status_code_digits("20 text/gemini"));
}

#[test]
fn test_parse_success() {
    let (_, header) = parse("20 text/gemini\r\n").unwrap();

    assert_eq!(Status::Success, header.status());
    match header.inner() {
        Inner::Success { mime } => assert_eq!("text/gemini", mime),
        _ => unreachable!(),
    }
}

#[test]
fn test_parse_success_range() {
    let (_, header) = parse("25 text/gemini\r\n").unwrap();

    assert_eq!(Status::Success, header.status());
    match header.inner() {
        Inner::Success { mime } => assert_eq!("text/gemini", mime),
        _ => unreachable!(),
    }
}

#[test]
fn test_parse_input() {
    let (_, header) = parse("10 What is your name?\r\n").unwrap();

    assert_eq!(Status::Input, header.status());
    match header.inner() {
        Inner::Input { prompt } => assert_eq!(&Some("What is your name?".to_string()), prompt),
        _ => unreachable!(),
    }
}

#[test]
fn test_parse_input_sensitive() {
    let (_, header) = parse("11 Would you like to play a game?\r\n").unwrap();

    assert_eq!(Status::InputSensitive, header.status());
    match header.inner() {
        Inner::Input { prompt } => {
            assert_eq!(&Some("Would you like to play a game?".to_string()), prompt)
        }
        _ => unreachable!(),
    }
}

#[test]
fn test_status_from_exact_codes() {
    assert_eq!(Status::Input, Status::from(10));
    assert_eq!(Status::InputSensitive, Status::from(11));
    assert_eq!(Status::Success, Status::from(20));
    assert_eq!(Status::RedirectTemporary, Status::from(30));
    assert_eq!(Status::RedirectPermanent, Status::from(31));
    assert_eq!(Status::TemporaryFailure, Status::from(40));
    assert_eq!(Status::ServerUnavailable, Status::from(41));
    assert_eq!(Status::CgiError, Status::from(42));
    assert_eq!(Status::ProxyError, Status::from(43));
    assert_eq!(Status::SlowDown, Status::from(44));
    assert_eq!(Status::PermanentFailure, Status::from(50));
    assert_eq!(Status::NotFound, Status::from(51));
    assert_eq!(Status::Gone, Status::from(52));
    assert_eq!(Status::ProxyRequestRefused, Status::from(53));
    assert_eq!(Status::BadRequest, Status::from(59));
    assert_eq!(Status::ClientCertificateRequired, Status::from(60));
    assert_eq!(Status::CertificateNotAuthorized, Status::from(61));
    assert_eq!(Status::CertificateNotValid, Status::from(62));
}

#[test]
fn test_status_from_ranges_and_unknown() {
    assert_eq!(Status::Input, Status::from(15));
    assert_eq!(Status::Success, Status::from(29));
    assert_eq!(Status::RedirectTemporary, Status::from(35));
    assert_eq!(Status::TemporaryFailure, Status::from(45));
    assert_eq!(Status::PermanentFailure, Status::from(55));
    assert_eq!(Status::ClientCertificateRequired, Status::from(69));
    assert_eq!(Status::Unknown(7), Status::from(7));
    assert_eq!(Status::Unknown(99), Status::from(99));
}

fn assert_failure_shaped(raw: &str, message: &str) {
    let (_, header) = parse(raw).unwrap();
    match header.inner() {
        Inner::Failure { error } => assert_eq!(&Some(message.to_string()), error),
        _ => unreachable!(),
    }
}

#[test]
fn test_failure_class_always_failure_shaped() {
    for code in 40..=49 {
        assert_failure_shaped(&format!("{} oops\r\n", code), "oops");
    }
    for code in 50..=59 {
        assert_failure_shaped(&format!("{} oops\r\n", code), "oops");
    }
}

#[test]
fn test_input_class_always_input_shaped() {
    for code in 10..=19 {
        let (_, header) = parse(&format!("{} ask\r\n", code)).unwrap();
        assert!(matches!(header.inner(), Inner::Input { .. }));
    }
}

#[test]
fn test_certificate_class_always_certificate_shaped() {
    for code in 60..=69 {
        let (_, header) = parse(&format!("{} need cert\r\n", code)).unwrap();
        assert!(matches!(header.inner(), Inner::ClientCertificateRequired { .. }));
    }
}

#[test]
fn test_header_round_trip_examples() {
    let (rest, header) = parse("20 text/gemini\r\n").unwrap();
    assert_eq!("", rest);
    assert!(matches!(header.inner(), Inner::Success { mime } if mime == "text/gemini"));

    let (rest, header) = parse("10 Name?\r\n").unwrap();
    assert_eq!("", rest);
    assert!(matches!(header.inner(), Inner::Input { prompt: Some(p) } if p == "Name?"));

    let (rest, header) = parse("51 Not found\r\n").unwrap();
    assert_eq!("", rest);
    assert!(matches!(header.inner(), Inner::Failure { error: Some(e) } if e == "Not found"));
}

#[test]
fn test_parse_failure_message() {
    let (_, header) = parse("51 Not found\r\n").unwrap();

    assert_eq!(Status::NotFound, header.status());
    match header.inner() {
        Inner::Failure { error } => assert_eq!(&Some("Not found".to_string()), error),
        _ => unreachable!(),
    }
}

#[test]
fn test_parse_empty_meta_is_absent() {
    let (_, header) = parse("51 \r\n").unwrap();
    match header.inner() {
        Inner::Failure { error } => assert_eq!(&None, error),
        _ => unreachable!(),
    }
}

#[test]
fn test_parse_redirect() {
    let (_, header) = parse("30 gemini://example.org/next\r\n").unwrap();

    assert_eq!(Status::RedirectTemporary, header.status());
    match header.inner() {
        Inner::Redirect { url } => assert_eq!("gemini://example.org/next", url),
        _ => unreachable!(),
    }
}

#[test]
fn test_parse_redirect_relative_target_is_invalid() {
    assert!(matches!(parse("31 /relative\r\n"), Err(Error::HeaderFieldInvalid)));
}

#[test]
fn test_parse_invalid_mime_is_invalid_field() {
    assert!(matches!(parse("20 not a mime\r\n"), Err(Error::HeaderFieldInvalid)));
}

#[test]
fn test_parse_unknown_status_is_parse_error() {
    assert!(matches!(parse("99 hmm\r\n"), Err(Error::HeaderParseError)));
    assert!(matches!(parse("05 hmm\r\n"), Err(Error::HeaderParseError)));
}

#[test]
fn test_parse_bad_grammar() {
    assert!(matches!(parse("2\r\n"), Err(Error::HeaderParseError)));
    assert!(matches!(parse("20text/gemini\r\n"), Err(Error::HeaderParseError)));
    assert!(matches!(parse("20 text/gemini"), Err(Error::HeaderParseError)));
    assert!(matches!(parse("20 text/gemini\n"), Err(Error::HeaderParseError)));
    assert!(matches!(parse("ab text/gemini\r\n"), Err(Error::HeaderParseError)));
}

#[test]
fn test_parse_keeps_remaining_body() {
    let (rest, _) = parse("20 text/gemini\r\nfirst line\r\n").unwrap();
    assert_eq!("first line\r\n", rest);
}

#[test]
fn test_build_header_success_keeps_body() {
    let (header, body) = build_header(b"20 text/gemini\r\nhello").unwrap();

    assert_eq!(Status::Success, header.status());
    assert_eq!(Some(b"hello".to_vec()), body);
}

#[test]
fn test_build_header_failure_has_no_body() {
    let (header, body) = build_header(b"51 gone\r\nignored").unwrap();

    assert_eq!(Status::NotFound, header.status());
    assert_eq!(None, body);
}

#[test]
fn test_build_header_rejects_invalid_utf8() {
    assert!(matches!(build_header(&[0xff, 0x20, 0x0d, 0x0a]), Err(Error::HeaderParseError)));
}

#[test]
fn test_header_constructors() {
    let h = Header::input(Status::Input, "");
    assert!(matches!(h.inner(), Inner::Input { prompt: None }));

    let h = Header::failure(Status::NotFound, "gone");
    match h.inner() {
        Inner::Failure { error } => assert_eq!(&Some("gone".to_string()), error),
        _ => unreachable!(),
    }

    let h = Header::client_certificate(Status::CertificateNotValid, "bad");
    match h.inner() {
        Inner::ClientCertificateRequired { error } => assert_eq!(&Some("bad".to_string()), error),
        _ => unreachable!(),
    }
}

#[test]
fn test_response_parse() {
    let response = Response::parse(b"20 text/gemini\r\n# Hi\r\n", "gemini://example.org").unwrap();

    assert_eq!(Status::Success, response.header().status());
    assert_eq!(Some(&b"# Hi\r\n".to_vec()), response.body());
    assert_eq!("gemini://example.org", response.url());
}

#[test]
fn test_response_parse_error_status_has_no_body() {
    let response = Response::parse(b"40 try later\r\n", "gemini://example.org").unwrap();

    assert_eq!(Status::TemporaryFailure, response.header().status());
    assert_eq!(None, response.body());
}

#[test]
fn test_response_parse_propagates_header_errors() {
    assert!(matches!(
        Response::parse(b"xx nope\r\n", "gemini://example.org"),
        Err(Error::HeaderParseError)
    ));
}
