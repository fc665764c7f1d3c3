use smalldb::handshake::{
    Error, HandshakeState, HandshakeStep, Secure, SslMode,
};
use smalldb::{VERSION_1, VERSION_3, VERSION_SSL};

fn be32(n: i32) -> [u8; 4] {
    (n as u32).to_be_bytes()
}

fn startup_frame(version: i32, params: &[(&str, &str)]) -> Vec<u8> {
    let mut frame = Vec::new();
    frame.extend_from_slice(&be32(version));
    for (key, value) in params {
        frame.extend_from_slice(key.as_bytes());
        frame.push(0);
        frame.extend_from_slice(value.as_bytes());
        frame.push(0);
    }
    frame.push(0);
    frame
}

#[test]
fn v3_startup_completes_with_parameters_in_order() {
    let secure = Secure::none();
    let frame = startup_frame(
        VERSION_3,
        &[("client_encoding", "UTF8"), ("timezone", "UTC"), ("user", "postgres")],
    );
    match secure.handshake_step(HandshakeState::AwaitStartup { ssl_refused: false }, &frame) {
        HandshakeStep::Established { properties, response } => {
            assert_eq!(
                properties,
                (
                    VERSION_3,
                    vec![
                        ("client_encoding".to_owned(), "UTF8".to_owned()),
                        ("timezone".to_owned(), "UTC".to_owned()),
                        ("user".to_owned(), "postgres".to_owned())
                    ],
                    SslMode::Disable
                )
            );
            assert_eq!(response, vec![b'R', 0, 0, 0, 8, 0, 0, 0, 0]);
        }
        _ => panic!("connection is open"),
    }
}

#[test]
fn ssl_request_against_plain_server_gets_one_byte_notice() {
    let secure = Secure::none();
    let frame = be32(VERSION_SSL).to_vec();
    match secure.handshake_step(HandshakeState::AwaitStartup { ssl_refused: false }, &frame) {
        HandshakeStep::Continue { state, response } => {
            assert_eq!(response, vec![b'N']);
            match state {
                HandshakeState::AwaitStartup { ssl_refused } => assert!(ssl_refused),
                _ => panic!("handshake must wait for a startup frame"),
            }
        }
        _ => panic!("SSL refusal must keep the connection"),
    }
}

#[test]
fn startup_after_refused_ssl_runs_password_exchange() {
    let secure = Secure::none();

    let ssl = be32(VERSION_SSL).to_vec();
    let state = match secure.handshake_step(HandshakeState::AwaitStartup { ssl_refused: false }, &ssl) {
        HandshakeStep::Continue { state, response } => {
            assert_eq!(response, vec![b'N']);
            state
        }
        _ => panic!("SSL refusal must keep the connection"),
    };

    let startup = startup_frame(
        VERSION_3,
        &[
            ("user", "username"),
            ("database", "database_name"),
            ("application_name", "psql"),
            ("client_encoding", "UTF8"),
        ],
    );
    let state = match secure.handshake_step(state, &startup) {
        HandshakeStep::Continue { state, response } => {
            // AuthenticationCleartextPassword
            assert_eq!(response, vec![b'R', 0, 0, 0, 8, 0, 0, 0, 3]);
            state
        }
        _ => panic!("startup after refused SSL must ask for a password"),
    };

    let password = b"123".to_vec();
    match secure.handshake_step(state, &password) {
        HandshakeStep::Established { properties, response } => {
            assert_eq!(response, vec![b'R', 0, 0, 0, 8, 0, 0, 0, 0]);
            assert_eq!(
                properties,
                (
                    VERSION_3,
                    vec![
                        ("user".to_owned(), "username".to_owned()),
                        ("database".to_owned(), "database_name".to_owned()),
                        ("application_name".to_owned(), "psql".to_owned()),
                        ("client_encoding".to_owned(), "UTF8".to_owned())
                    ],
                    SslMode::Require
                )
            );
        }
        _ => panic!("any password completes the handshake"),
    }
}

#[test]
fn old_protocol_versions_are_unsupported() {
    let secure = Secure::none();
    let frame = startup_frame(VERSION_1, &[]);
    match secure.handshake_step(HandshakeState::AwaitStartup { ssl_refused: false }, &frame) {
        HandshakeStep::Failed(e) => assert_eq!(e, Error::UnsupportedVersion),
        _ => panic!("a v1 startup is refused"),
    }
}

#[test]
fn unknown_version_is_unrecognized() {
    let secure = Secure::none();
    let frame = be32(57).to_vec();
    match secure.handshake_step(HandshakeState::AwaitStartup { ssl_refused: false }, &frame) {
        HandshakeStep::Failed(e) => assert_eq!(e, Error::UnrecognizedVersion),
        _ => panic!("an unknown version is refused"),
    }
}

#[test]
fn gssenc_request_against_plain_server_is_unsupported() {
    let secure = Secure::none();
    let frame = be32(80877104).to_vec();
    match secure.handshake_step(HandshakeState::AwaitStartup { ssl_refused: false }, &frame) {
        HandshakeStep::Failed(e) => assert_eq!(e, Error::UnsupportedRequest),
        _ => panic!("a GSSAPI request is refused"),
    }
}

#[test]
fn ssl_request_against_tls_server_asks_for_upgrade() {
    let secure = Secure::ssl_only();
    let frame = be32(VERSION_SSL).to_vec();
    assert!(matches!(
        secure.handshake_step(HandshakeState::AwaitStartup { ssl_refused: false }, &frame),
        HandshakeStep::UpgradeTls
    ));
    assert!(secure.ssl_support());
    assert!(!secure.gssenc_support());
}

#[test]
fn secure_constructors_report_their_support() {
    assert!(!Secure::none().ssl_support());
    assert!(!Secure::none().gssenc_support());
    assert!(Secure::ssl_only().ssl_support());
    assert!(Secure::gssenc_only().gssenc_support());
    assert!(!Secure::gssenc_only().ssl_support());
    assert!(Secure::both().ssl_support());
    assert!(Secure::both().gssenc_support());
}

#[test]
fn unpaired_trailing_startup_token_is_dropped() {
    let secure = Secure::none();
    let mut frame = be32(VERSION_3).to_vec();
    frame.extend_from_slice(b"user\0postgres\0stray\0");
    match secure.handshake_step(HandshakeState::AwaitStartup { ssl_refused: false }, &frame) {
        HandshakeStep::Established { properties, .. } => {
            assert_eq!(
                properties.1,
                vec![("user".to_owned(), "postgres".to_owned())]
            );
        }
        _ => panic!("connection is open"),
    }
}

#[test]
fn after_ssl_refusal_any_version_word_is_read_as_a_startup() {
    let secure = Secure::none();
    let frame = startup_frame(99, &[("user", "u")]);
    match secure.handshake_step(HandshakeState::AwaitStartup { ssl_refused: true }, &frame) {
        HandshakeStep::Continue { state, .. } => match state {
            HandshakeState::AwaitPassword { version, params } => {
                assert_eq!(version, 99);
                assert_eq!(params, vec![("user".to_owned(), "u".to_owned())]);
            }
            _ => panic!("the frame counts as a startup"),
        },
        _ => panic!("the frame counts as a startup"),
    }
}
