use legacy_doc::DocError;

#[test]
fn describes_errors_with_their_payloads() {
    assert_eq!(
        DocError::InputTooLarge { actual: 4, limit: 3 }.describe(),
        "DOC input is 4 bytes; limit is 3 bytes"
    );
    assert_eq!(
        DocError::StreamTooLarge { stream: "1Table", actual: 1103, limit: 1000 }.describe(),
        "DOC stream 1Table is 1103 bytes; limit is 1000 bytes"
    );
    assert_eq!(DocError::MissingStream("Data").describe(), "required DOC stream is missing: Data");
    assert_eq!(DocError::UnsupportedVersion(0x00C0).describe(), "unsupported Word Binary revision: 0x00C0");
    assert_eq!(DocError::UnsupportedVersion(0xBEEF).describe(), "unsupported Word Binary revision: 0xBEEF");
    assert_eq!(DocError::PasswordProtected.describe(), "password-protected DOC documents are not supported");
    assert_eq!(DocError::InvalidTable("bad".into()).describe(), "invalid DOC table structure: bad");
    assert_eq!(
        DocError::OutOfBounds { structure: "Clx", offset: 10, end: 20, available: 15 }.describe(),
        "Clx range [10, 20) exceeds containing stream length 15"
    );
    assert_eq!(
        DocError::ResourceLimit { resource: "piece", actual: 5, limit: 4 }.describe(),
        "DOC piece count 5 exceeds limit 4"
    );
}
