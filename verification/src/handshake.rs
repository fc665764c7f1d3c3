//! The startup handshake: a state machine from received frames to
//! responses, driven by the connection loop around it.  It performs
//! the version negotiation, refuses or accepts encryption requests,
//! collects the startup parameters, and runs the cleartext password
//! exchange, exactly as the clauses of [`Secure::handshake_step`]
//! prescribe.

use vstd::prelude::*;
use crate::messages::{
    enc_authentication_cleartext, enc_authentication_ok, enc_notice, Message,
};
use crate::{VERSION_1, VERSION_2, VERSION_3, VERSION_CANCEL, VERSION_GSSENC, VERSION_SSL};

verus! {

/// What `String::from_utf8_lossy` yields on these bytes: a pure
/// function of the bytes alone.
pub uninterp spec fn lossy_chars_of(bytes: Seq<u8>) -> Seq<char>;

/// Relies on String::from_utf8_lossy: total on all byte strings, and
/// bytes below 128 decode to themselves, ASCII being valid UTF-8.
#[verifier::external_body]
fn bytes_to_string_lossy(b: &[u8]) -> (r: String)
    ensures
        r@ == lossy_chars_of(b@),
        (forall|i: int| 0 <= i < b@.len() ==> b@[i] < 128) ==> r@ =~= b@.map_values(
            |c: u8| c as char,
        ),
{
    String::from_utf8_lossy(b).into_owned()
}

/// Whether the client asked for an encrypted session.
#[derive(Clone, Copy, PartialEq, Eq, Structural, Debug)]
pub enum SslMode {
    Disable,
    Require,
}

/// Why a handshake was refused.
#[derive(Clone, Copy, PartialEq, Eq, Structural, Debug)]
pub enum Error {
    UnsupportedRequest,
    UnsupportedVersion,
    UnrecognizedVersion,
}

/// The startup parameters, in the order received, duplicates kept.
pub type Params = Vec<(String, String)>;

/// What a finished handshake hands to the session: protocol version,
/// startup parameters, and the encryption mode the client asked for.
pub type ConnectionProperties = (i32, Params, SslMode);

/// Where the handshake stands between frames.
pub enum HandshakeState {
    /// Waiting for a startup or encryption-request frame.
    AwaitStartup { ssl_refused: bool },
    /// Startup taken after a refused SSL request; waiting for the
    /// password frame, whose contents are not checked.
    AwaitPassword { version: i32, params: Params },
}

/// What one frame did to the handshake.
pub enum HandshakeStep {
    /// The connection is up: send the response and start the query
    /// loop with these properties.
    Established { properties: ConnectionProperties, response: Vec<u8> },
    /// Send the response and wait for the next frame in this state.
    Continue { state: HandshakeState, response: Vec<u8> },
    /// The client asked for TLS and the server offers it: upgrade
    /// the stream, then resume waiting for the startup frame.
    UpgradeTls,
    /// The client asked for GSSAPI encryption and the server offers
    /// it: upgrade, then resume waiting for the startup frame.
    UpgradeGss,
    /// The handshake is refused; drop the connection.
    Failed(Error),
}

/// Big-endian signed 32-bit value at the head of a frame.
pub open spec fn spec_be_i32(s: Seq<u8>) -> i32
    recommends
        s.len() >= 4,
{
    (((s[0] as u32) << 24) | ((s[1] as u32) << 16) | ((s[2] as u32) << 8) | (s[3] as u32)) as i32
}

/// The NUL-separated tokens of a startup body, scanned from position
/// `i` with `cur` the token in progress and `acc` the tokens done:
/// empty tokens are dropped, a trailing unterminated token counts.
pub open spec fn tokens_from(body: Seq<u8>, i: int, cur: Seq<u8>, acc: Seq<Seq<u8>>) -> Seq<
    Seq<u8>,
>
    decreases body.len() - i,
{
    if i < 0 || i >= body.len() {
        if cur.len() > 0 {
            acc.push(cur)
        } else {
            acc
        }
    } else if body[i] == 0 {
        tokens_from(
            body,
            i + 1,
            Seq::empty(),
            if cur.len() > 0 {
                acc.push(cur)
            } else {
                acc
            },
        )
    } else {
        tokens_from(body, i + 1, cur.push(body[i]), acc)
    }
}

/// The NUL-separated tokens of a startup body.
pub open spec fn tokens_of(body: Seq<u8>) -> Seq<Seq<u8>> {
    tokens_from(body, 0, Seq::empty(), Seq::empty())
}

/// Consecutive tokens paired up from position `i`, each decoded;
/// an unpaired trailing token is dropped.
pub open spec fn pairs_from(toks: Seq<Seq<u8>>, i: int) -> Seq<(Seq<char>, Seq<char>)>
    decreases toks.len() - i,
{
    if i < 0 || i + 2 > toks.len() {
        Seq::empty()
    } else {
        seq![(lossy_chars_of(toks[i]), lossy_chars_of(toks[i + 1]))].add(pairs_from(toks, i + 2))
    }
}

/// The startup parameters a startup body denotes: its tokens paired
/// in order.
pub open spec fn spec_params(body: Seq<u8>) -> Seq<(Seq<char>, Seq<char>)> {
    pairs_from(tokens_of(body), 0)
}

/// The key/value texts of a parameter list.
pub open spec fn params_model(ps: Seq<(String, String)>) -> Seq<(Seq<char>, Seq<char>)> {
    ps.map_values(|p: (String, String)| (p.0@, p.1@))
}

/// Parse a startup body into its parameter list.
fn parse_params(body: &[u8]) -> (r: Params)
    ensures
        params_model(r@) =~= spec_params(body@),
{
    let mut tokens: Vec<Vec<u8>> = Vec::new();
    let mut cur: Vec<u8> = Vec::new();
    let mut i: usize = 0;
    proof {
        assert(cur@ =~= Seq::<u8>::empty());
        assert(tokens@.map_values(|t: Vec<u8>| t@) =~= Seq::<Seq<u8>>::empty());
    }
    while i < body.len()
        invariant
            0 <= i <= body@.len(),
            tokens_of(body@) == tokens_from(
                body@,
                i as int,
                cur@,
                tokens@.map_values(|t: Vec<u8>| t@),
            ),
        decreases body@.len() - i,
    {
        let ghost pre_tokens = tokens@.map_values(|t: Vec<u8>| t@);
        let ghost pre_cur = cur@;
        let b = body[i];
        if b == 0 {
            if cur.len() > 0 {
                let full = cur;
                cur = Vec::new();
                tokens.push(full);
                proof {
                    assert(tokens@.map_values(|t: Vec<u8>| t@) =~= pre_tokens.push(full@));
                    assert(cur@ =~= Seq::<u8>::empty());
                    assert(tokens_from(body@, i as int, pre_cur, pre_tokens) == tokens_from(
                        body@,
                        i as int + 1,
                        Seq::empty(),
                        pre_tokens.push(pre_cur),
                    ));
                }
            } else {
                proof {
                    assert(pre_cur =~= Seq::<u8>::empty());
                    assert(tokens_from(body@, i as int, pre_cur, pre_tokens) == tokens_from(
                        body@,
                        i as int + 1,
                        Seq::empty(),
                        pre_tokens,
                    ));
                    assert(cur@ =~= Seq::<u8>::empty());
                }
            }
        } else {
            cur.push(b);
            proof {
                assert(cur@ == pre_cur.push(b));
                assert(tokens_from(body@, i as int, pre_cur, pre_tokens) == tokens_from(
                    body@,
                    i as int + 1,
                    pre_cur.push(b),
                    pre_tokens,
                ));
            }
        }
        i = i + 1;
    }
    if cur.len() > 0 {
        let full = cur;
        let ghost pre_tokens = tokens@.map_values(|t: Vec<u8>| t@);
        tokens.push(full);
        proof {
            assert(tokens@.map_values(|t: Vec<u8>| t@) =~= pre_tokens.push(full@));
        }
    }
    let ghost tokm = tokens@.map_values(|t: Vec<u8>| t@);
    proof {
        assert(tokens_of(body@) == tokm);
    }

    let mut params: Params = Vec::new();
    let mut k: usize = 0;
    while k < tokens.len()
        invariant
            0 <= k <= tokens@.len(),
            tokm == tokens@.map_values(|t: Vec<u8>| t@),
            pairs_from(tokm, 0) =~= params_model(params@).add(pairs_from(tokm, k as int)),
        decreases tokens@.len() - k,
    {
        if k + 1 >= tokens.len() {
            // an unpaired trailing token is dropped
            proof {
                assert(pairs_from(tokm, k as int) =~= Seq::<(Seq<char>, Seq<char>)>::empty());
                assert(pairs_from(tokm, tokens@.len() as int) =~= Seq::<
                    (Seq<char>, Seq<char>),
                >::empty());
            }
            k = tokens.len();
        } else {
            let key = bytes_to_string_lossy(tokens[k].as_slice());
            let value = bytes_to_string_lossy(tokens[k + 1].as_slice());
            let ghost pre = params_model(params@);
            params.push((key, value));
            proof {
                assert(params_model(params@) =~= pre.push(
                    (lossy_chars_of(tokm[k as int]), lossy_chars_of(tokm[k as int + 1])),
                ));
                assert(pairs_from(tokm, k as int) =~= seq![
                    (lossy_chars_of(tokm[k as int]), lossy_chars_of(tokm[k as int + 1])),
                ].add(pairs_from(tokm, k as int + 2)));
                assert(pairs_from(tokm, 0) =~= params_model(params@).add(
                    pairs_from(tokm, k as int + 2),
                ));
            }
            k = k + 2;
        }
    }
    proof {
        assert(pairs_from(tokm, k as int) =~= Seq::<(Seq<char>, Seq<char>)>::empty());
        assert(pairs_from(tokm, 0) =~= params_model(params@));
    }
    params
}

/// Big-endian signed 32-bit value at the head of a frame.
fn read_be_i32(frame: &[u8]) -> (r: i32)
    requires
        frame@.len() >= 4,
    ensures
        r == spec_be_i32(frame@),
{
    let word: u32 = ((frame[0] as u32) << 24) | ((frame[1] as u32) << 16) | ((frame[2] as u32)
        << 8) | (frame[3] as u32);
    #[verifier::truncate] (word as i32)
}

/// Which encryption upgrades this server offers.
pub struct Secure {
    ssl: bool,
    gssenc: bool,
}

impl Secure {
    /// The server offers TLS upgrades.
    pub closed spec fn spec_ssl_support(&self) -> bool {
        self.ssl
    }

    /// The server offers GSSAPI upgrades.
    pub closed spec fn spec_gssenc_support(&self) -> bool {
        self.gssenc
    }

    /// Neither encryption upgrade.
    pub fn none() -> (r: Secure)
        ensures
            !r.spec_ssl_support(),
            !r.spec_gssenc_support(),
    {
        Secure { ssl: false, gssenc: false }
    }

    /// TLS only.
    pub fn ssl_only() -> (r: Secure)
        ensures
            r.spec_ssl_support(),
            !r.spec_gssenc_support(),
    {
        Secure { ssl: true, gssenc: false }
    }

    /// GSSAPI only.
    pub fn gssenc_only() -> (r: Secure)
        ensures
            !r.spec_ssl_support(),
            r.spec_gssenc_support(),
    {
        Secure { ssl: false, gssenc: true }
    }

    /// Both upgrades.
    pub fn both() -> (r: Secure)
        ensures
            r.spec_ssl_support(),
            r.spec_gssenc_support(),
    {
        Secure { ssl: true, gssenc: true }
    }

    /// Whether TLS is offered.
    pub fn ssl_support(&self) -> (r: bool)
        ensures
            r == self.spec_ssl_support(),
    {
        self.ssl
    }

    /// Whether GSSAPI is offered.
    pub fn gssenc_support(&self) -> (r: bool)
        ensures
            r == self.spec_gssenc_support(),
    {
        self.gssenc
    }

    /// Drive the handshake by one received frame.  In
    /// `AwaitStartup`, the frame's leading version decides: a v3
    /// startup completes the handshake at once with its parameters
    /// and `AuthenticationOk`; an SSL request is either answered by
    /// an upgrade or refused with the one-byte notice, after which
    /// the next frame is read as a startup and the cleartext
    /// password exchange runs; a GSSAPI request likewise upgrades or
    /// fails; old and cancel versions fail as unsupported, anything
    /// else as unrecognized.  In `AwaitPassword`, any frame counts
    /// as the password and the handshake completes.
    pub fn handshake_step(&self, state: HandshakeState, frame: &[u8]) -> (r: HandshakeStep)
        requires
            state is AwaitStartup ==> frame@.len() >= 4,
        ensures
            match state {
                HandshakeState::AwaitStartup { ssl_refused } => {
                    let v = spec_be_i32(frame@);
                    if ssl_refused {
                        r matches HandshakeStep::Continue { state: next, response }
                            && next matches HandshakeState::AwaitPassword { version, params }
                            && version == v && params_model(params@) =~= spec_params(
                            frame@.skip(4),
                        ) && response@ =~= enc_authentication_cleartext()
                    } else if v == VERSION_3 {
                        r matches HandshakeStep::Established { properties, response }
                            && properties.0 == VERSION_3 && params_model(properties.1@)
                            =~= spec_params(frame@.skip(4)) && properties.2 == SslMode::Disable
                            && response@ =~= enc_authentication_ok()
                    } else if v == VERSION_SSL {
                        if self.spec_ssl_support() {
                            r is UpgradeTls
                        } else {
                            r matches HandshakeStep::Continue { state: next, response }
                                && next == (HandshakeState::AwaitStartup { ssl_refused: true })
                                && response@ =~= enc_notice()
                        }
                    } else if v == VERSION_GSSENC {
                        if self.spec_gssenc_support() {
                            r is UpgradeGss
                        } else {
                            r == HandshakeStep::Failed(Error::UnsupportedRequest)
                        }
                    } else if v == VERSION_CANCEL || v == VERSION_2 || v == VERSION_1 {
                        r == HandshakeStep::Failed(Error::UnsupportedVersion)
                    } else {
                        r == HandshakeStep::Failed(Error::UnrecognizedVersion)
                    }
                },
                HandshakeState::AwaitPassword { version, params } => r matches
                    HandshakeStep::Established { properties, response } && properties.0
                    == version && properties.1 == params && properties.2 == SslMode::Require
                    && response@ =~= enc_authentication_ok(),
            },
    {
        match state {
            HandshakeState::AwaitStartup { ssl_refused } => {
                if ssl_refused {
                    let version = read_be_i32(frame);
                    let (_, body) = frame.split_at(4);
                    let params = parse_params(body);
                    proof {
                        assert(body@ =~= frame@.skip(4));
                    }
                    return HandshakeStep::Continue {
                        state: HandshakeState::AwaitPassword { version, params },
                        response: Message::AuthenticationCleartextPassword.as_vec(),
                    };
                }
                let version = read_be_i32(frame);
                if version == VERSION_3 {
                    let (_, body) = frame.split_at(4);
                    let params = parse_params(body);
                    proof {
                        assert(body@ =~= frame@.skip(4));
                    }
                    HandshakeStep::Established {
                        properties: (VERSION_3, params, SslMode::Disable),
                        response: Message::AuthenticationOk.as_vec(),
                    }
                } else if version == VERSION_SSL {
                    if self.ssl_support() {
                        HandshakeStep::UpgradeTls
                    } else {
                        HandshakeStep::Continue {
                            state: HandshakeState::AwaitStartup { ssl_refused: true },
                            response: Message::Notice.as_vec(),
                        }
                    }
                } else if version == VERSION_GSSENC {
                    if self.gssenc_support() {
                        HandshakeStep::UpgradeGss
                    } else {
                        HandshakeStep::Failed(Error::UnsupportedRequest)
                    }
                } else if version == VERSION_CANCEL || version == VERSION_2 || version
                    == VERSION_1 {
                    HandshakeStep::Failed(Error::UnsupportedVersion)
                } else {
                    HandshakeStep::Failed(Error::UnrecognizedVersion)
                }
            },
            HandshakeState::AwaitPassword { version, params } => HandshakeStep::Established {
                properties: (version, params, SslMode::Require),
                response: Message::AuthenticationOk.as_vec(),
            },
        }
    }
}

} // verus!
