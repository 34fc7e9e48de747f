use http_server::error::{frame, Error};
use http_server::server::Server;

fn args(list: &[&str]) -> Vec<String> {
    list.iter().map(|s| s.to_string()).collect()
}

#[test]
fn server_defaults_to_local_port_4221() {
    let server = Server::new(&args(&["server"])).unwrap();
    assert_eq!(server.cwd, None);
    assert_eq!(server.host, "127.0.0.1");
    assert_eq!(server.port, 4221);
    assert_eq!(server.address(), "127.0.0.1:4221");
    let server = Server::new(&[]).unwrap();
    assert_eq!(server.address(), "127.0.0.1:4221");
}

#[test]
fn flags_set_what_they_name() {
    let server = Server::new(&args(&[
        "server",
        "--directory",
        "/tmp/files",
        "--host",
        "0.0.0.0",
        "--port",
        "8080",
    ]))
    .unwrap();
    assert_eq!(server.cwd, Some("/tmp/files".to_string()));
    assert_eq!(server.host, "0.0.0.0");
    assert_eq!(server.port, 8080);
    assert_eq!(server.address(), "0.0.0.0:8080");
}

#[test]
fn later_flag_replaces_earlier_one() {
    let server = Server::new(&args(&["server", "--port", "1", "--port", "2"])).unwrap();
    assert_eq!(server.port, 2);
}

#[test]
fn flag_without_value_sets_nothing() {
    let server = Server::new(&args(&["server", "--host"])).unwrap();
    assert_eq!(server.host, "127.0.0.1");
}

#[test]
fn every_argument_is_read_as_a_flag() {
    let server = Server::new(&args(&["server", "--host", "--port", "80"])).unwrap();
    assert_eq!(server.host, "--port");
    assert_eq!(server.port, 80);
    let server = Server::new(&args(&["--directory", "--directory", "x"])).unwrap();
    assert_eq!(server.cwd, Some("x".to_string()));
}

#[test]
fn port_must_fit_32_bits() {
    assert_eq!(Server::new(&args(&["server", "--port", "4294967295"])).unwrap().port, 4294967295);
    assert_eq!(
        Server::new(&args(&["server", "--port", "4294967296"])).unwrap_err(),
        Error::InvalidPort
    );
    assert_eq!(Server::new(&args(&["server", "--port", "http"])).unwrap_err(), Error::InvalidPort);
    assert_eq!(Server::new(&args(&["server", "--port", ""])).unwrap_err(), Error::InvalidPort);
    assert_eq!(Server::new(&args(&["server", "--port", "-1"])).unwrap_err(), Error::InvalidPort);
    assert_eq!(Server::new(&args(&["server", "--port", "+80"])).unwrap().port, 80);
    assert_eq!(Server::new(&args(&["server", "--port", "0080"])).unwrap().port, 80);
}

#[test]
fn first_bad_port_ends_the_reading() {
    assert_eq!(
        Server::new(&args(&["server", "--port", "x", "--port", "80"])).unwrap_err(),
        Error::InvalidPort
    );
}

#[test]
fn every_failure_has_its_message() {
    assert_eq!(Error::PayloadTooLarge.message(), "Request exceeds 4096 bytes.");
    assert_eq!(Error::MalformedStatusLine.message(), "Failed to parse status line.");
    assert_eq!(Error::UnsupportedMethod.message(), "Failed to parse request method.");
    assert_eq!(Error::UnsupportedProtocol.message(), "Failed to parse HTTP version.");
    assert_eq!(Error::EncodingError.message(), "Request is not valid UTF-8.");
    assert_eq!(Error::InvalidContentLength.message(), "Failed to parse content length.");
    assert_eq!(Error::UnsupportedMimeType.message(), "Failed to parse mime type.");
    assert_eq!(Error::UnsupportedEncoding.message(), "Failed to parse encoding method.");
    assert_eq!(Error::MissingMessage.message(), "Failed to get message from context.");
    assert_eq!(Error::MissingFilename.message(), "Failed to get filename from context.");
    assert_eq!(
        Error::MissingUserAgent.message(),
        "Failed to get user agent from request headers."
    );
    assert_eq!(Error::MissingContent.message(), "Request did not contain content.");
    assert_eq!(Error::InvalidPattern.message(), "Failed to compile route pattern.");
    assert_eq!(Error::InvalidPort.message(), "Failed to parse port.");
    assert_eq!(Error::Io.message(), "Failed to read or write file.");
}

#[test]
fn report_puts_every_line_behind_a_bar() {
    assert_eq!(frame("one"), "| Error:\n|   one");
    assert_eq!(frame("one\ntwo\n"), "| Error:\n|   one\n|   two\n|   ");
    assert_eq!(frame(""), "| Error:\n|   ");
    assert_eq!(Error::Io.report(), "| Error:\n|   Failed to read or write file.");
}
