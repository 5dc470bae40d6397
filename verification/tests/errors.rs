use ra2_shp::errors::Ra2Error;

#[test]
fn messages() {
    let e = Ra2Error::InvalidFormat { message: "bad".to_string() };
    assert_eq!(e.message(), "Invalid file format: bad");
    let e = Ra2Error::EncodeError { format: "png".to_string(), message: "oops".to_string() };
    assert_eq!(e.message(), "Encode error: png: oops");
    let io = std::io::Error::new(std::io::ErrorKind::Other, "disk gone");
    let e: Ra2Error = io.into();
    assert!(matches!(e, Ra2Error::Io(_)));
    assert_eq!(e.message(), "IO error: disk gone");
}
