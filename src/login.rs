//! The per-connection state machine before Play: the handshake that picks
//! Status or Login, the status exchange, and the encryption handshake that
//! ends in a promotion to Play. Outbound packets come back as plain frames;
//! the connection owner sends them, through its cipher once it has one.
use vstd::prelude::*;
use crate::crypto::{random_token, ServerKeys};
use crate::data_reader::DataReader;
use crate::framing::{frame_bytes, RawPacket};
use crate::packet::{
    body_of, decodable, decodes_as, handshake_fields, packet_state, ConnectionState, Packet,
};
use crate::server_hash::{server_hash, server_hash_of};
use crate::text::hyphenated;
use crate::wire::{be_bytes, be_value, parse_string, string_bytes, varint_bytes};

verus! {

/// JSON text of a chat component holding plain text.
pub uninterp spec fn chat_json_of(text: Seq<char>) -> Seq<char>;

/// Relies on json's JsonValue: an object whose one member `"text"` holds
/// `text`, dumped as compact JSON; the output depends on the text alone.
#[verifier::external_body]
fn chat_text(text: &str) -> (r: String)
    ensures
        r@ == chat_json_of(text@),
{
    let mut component = json::JsonValue::new_object();
    component["text"] = json::JsonValue::String(text.to_string());
    component.dump()
}

/// JSON text of a status reply: version name and protocol number, player
/// cap and count, and a plain-text description.
pub uninterp spec fn status_json_of(
    version: Seq<char>,
    protocol: u8,
    max_players: u8,
    online: u8,
    description: Seq<char>,
) -> Seq<char>;

/// Relies on json's Object and JsonValue: `{"version":{"name","protocol"},
/// "players":{"max","online"},"description":{"text"}}` dumped as compact
/// JSON; the output depends on the arguments alone.
#[verifier::external_body]
fn build_status_json(
    version: &str,
    protocol: u8,
    max_players: u8,
    online: u8,
    description: &str,
) -> (r: String)
    ensures
        r@ == status_json_of(version@, protocol, max_players, online, description@),
{
    let mut v = json::object::Object::new();
    v.insert("name", version.into());
    v.insert("protocol", protocol.into());
    let mut p = json::object::Object::new();
    p.insert("max", max_players.into());
    p.insert("online", online.into());
    let mut d = json::object::Object::new();
    d.insert("text", description.into());
    let mut s = json::object::Object::new();
    s.insert("version", v.into());
    s.insert("players", p.into());
    s.insert("description", d.into());
    json::JsonValue::Object(s).dump()
}

/// The JSON text of a status reply.
pub fn status_json(version: &str, protocol: u8, max_players: u8, online: u8, description: &str) -> (r: String)
    ensures
        r@ == status_json_of(version@, protocol, max_players, online, description@),
{
    build_status_json(version, protocol, max_players, online, description)
}

/// Why a connection is turned away before Play.
#[derive(Debug, Clone, Copy, PartialEq, Eq, Structural)]
pub enum LoginFailure {
    InvalidNextState,
    InvalidVerifyToken,
    WrongVerifyToken,
    InvalidSharedSecret,
    UnknownPacket,
    AlreadyLoggingIn,
    AuthenticationFailed,
}

impl LoginFailure {
    /// The reason shown to the player.
    pub fn message(&self) -> (r: &'static str)
        ensures
            r@ == failure_text(*self),
    {
        match self {
            LoginFailure::InvalidNextState => "Invalid handshake next state",
            LoginFailure::InvalidVerifyToken => "Invalid verify token",
            LoginFailure::WrongVerifyToken => "Wrong verify token",
            LoginFailure::InvalidSharedSecret => "Invalid shared secret",
            LoginFailure::UnknownPacket => "Unknown packet for this connection state",
            LoginFailure::AlreadyLoggingIn => "One client logging in per time!",
            LoginFailure::AuthenticationFailed => "Could not authenticate with the session server",
        }
    }
}

pub open spec fn failure_text(f: LoginFailure) -> Seq<char> {
    match f {
        LoginFailure::InvalidNextState => "Invalid handshake next state"@,
        LoginFailure::InvalidVerifyToken => "Invalid verify token"@,
        LoginFailure::WrongVerifyToken => "Wrong verify token"@,
        LoginFailure::InvalidSharedSecret => "Invalid shared secret"@,
        LoginFailure::UnknownPacket => "Unknown packet for this connection state"@,
        LoginFailure::AlreadyLoggingIn => "One client logging in per time!"@,
        LoginFailure::AuthenticationFailed => "Could not authenticate with the session server"@,
    }
}

/// What the connection owner does after a batch of login packets.
#[derive(Debug)]
pub enum HandleResult {
    /// Send the reason if the state allows it, then tear the connection down.
    Disconnect(LoginFailure),
    /// Ask the session service who the player is, with this server hash.
    Authenticate(String),
    /// The player is in: move the connection to Play.
    Login,
    /// Nothing to do but wait for more data.
    Continue,
}

/// The state of one connection that has not reached Play.
pub struct LoginSession {
    pub state: ConnectionState,
    pub nickname: Option<String>,
    pub verify_token: Option<[u8; 4]>,
    /// The decrypted shared secret; it keys both stream ciphers.
    pub shared_secret: Option<Vec<u8>>,
    pub uuid: Option<[u8; 16]>,
}

/// Length of the shared secret: one AES-128 key.
pub const SECRET_LEN: usize = 16;

/// `after` is `before` with `frame` sent last.
pub open spec fn sent(before: Seq<Vec<u8>>, after: Seq<Vec<u8>>, frame: Seq<u8>) -> bool {
    &&& after.len() == before.len() + 1
    &&& after.drop_last() == before
    &&& after.last()@ == frame
}

/// The body of the encryption request for a public key and verify token.
pub open spec fn encryption_request_body(public_der: Seq<u8>, token: Seq<u8>) -> Seq<u8> {
    seq![0x01u8] + string_bytes(Seq::empty()) + varint_bytes(public_der.len() as i32) + public_der
        + varint_bytes(4) + token
}

/// The body of the login success for a profile.
pub open spec fn login_success_body(uuid: Seq<u8>, nickname: Seq<char>) -> Seq<u8> {
    seq![0x02u8] + string_bytes(hyphenated(uuid)) + string_bytes(nickname)
}

/// How an encryption response ends, given the expected verify token and
/// what the two ciphertexts decrypted to (`None` where decryption failed).
pub open spec fn encryption_outcome(
    expected: Option<Seq<u8>>,
    token: Option<Seq<u8>>,
    secret: Option<Seq<u8>>,
) -> Result<Seq<u8>, LoginFailure> {
    match token {
        None => Err(LoginFailure::InvalidVerifyToken),
        Some(t) => if expected != Some(t) {
            Err(LoginFailure::WrongVerifyToken)
        } else {
            match secret {
                Some(s) => if s.len() == SECRET_LEN {
                    Ok(s)
                } else {
                    Err(LoginFailure::InvalidSharedSecret)
                },
                None => Err(LoginFailure::InvalidSharedSecret),
            }
        },
    }
}

/// The frames of a run as ids and payloads.
pub open spec fn raw_views<'a>(s: Seq<RawPacket<'a>>) -> Seq<(i32, Seq<u8>)> {
    s.map_values(|p: RawPacket<'a>| p.view())
}

/// Whether a handshake payload asks for Status (1) or Login (2).
pub open spec fn valid_next_state(data: Seq<u8>) -> bool {
    handshake_fields(data) matches Some((_, _, _, n)) && (n == 1 || n == 2)
}

/// The state after a packet that does not end the batch.
pub open spec fn next_state_of(state: ConnectionState, id: i32, data: Seq<u8>) -> ConnectionState {
    if state == ConnectionState::Handshaking && id == 0 && valid_next_state(data) {
        if handshake_fields(data)->Some_0.3 == 1 {
            ConnectionState::Status
        } else {
            ConnectionState::Login
        }
    } else {
        state
    }
}

/// Whether a packet ends the batch: a handshake asking for an unknown
/// state, an encryption response, or any Play packet.
pub open spec fn stops(state: ConnectionState, id: i32, data: Seq<u8>) -> bool {
    decodable(state, id, data) && match state {
        ConnectionState::Handshaking => !valid_next_state(data),
        ConnectionState::Status => false,
        ConnectionState::Login => id == 1,
        ConnectionState::Play => true,
    }
}

/// The state after handling every packet of `ps`, none of which ends
/// the batch.
pub open spec fn prefix_state(ps: Seq<(i32, Seq<u8>)>, state: ConnectionState) -> ConnectionState
    decreases ps.len(),
{
    if ps.len() == 0 {
        state
    } else {
        let prev = ps.drop_last();
        next_state_of(prefix_state(prev, state), ps.last().0, ps.last().1)
    }
}

/// No packet of `ps` ends the batch, each read in the state the packets
/// before it left.
pub open spec fn no_stop(ps: Seq<(i32, Seq<u8>)>, state: ConnectionState) -> bool {
    forall|i: int|
        0 <= i < ps.len() ==> !stops(
            prefix_state(ps.take(i), state),
            (#[trigger] ps[i]).0,
            ps[i].1,
        )
}

/// The frames one packet that does not end the batch sends back: the
/// status for a status request, the echo for a ping, the encryption request
/// (with verify token `token`) for a login start.
pub open spec fn reply_frames(
    state: ConnectionState,
    id: i32,
    data: Seq<u8>,
    status_json: Seq<char>,
    public_der: Seq<u8>,
    token: Seq<u8>,
) -> Seq<Seq<u8>> {
    if !decodable(state, id, data) {
        Seq::empty()
    } else if state == ConnectionState::Status && id == 0 {
        seq![frame_bytes(seq![0x00u8] + string_bytes(status_json))]
    } else if state == ConnectionState::Status && id == 1 {
        seq![
            frame_bytes(
                seq![0x01u8] + be_bytes(
                    (((be_value(data.take(8)) as u64) as i64) as u64) as nat,
                    8,
                ),
            ),
        ]
    } else if state == ConnectionState::Login && id == 0 {
        seq![frame_bytes(encryption_request_body(public_der, token))]
    } else {
        Seq::empty()
    }
}

/// The frames a batch of packets that do not end it sends back, in order;
/// `tokens[i]` is the verify token drawn for packet `i`, if it asks for one.
pub open spec fn batch_frames(
    ps: Seq<(i32, Seq<u8>)>,
    state: ConnectionState,
    status_json: Seq<char>,
    public_der: Seq<u8>,
    tokens: Seq<Seq<u8>>,
) -> Seq<Seq<u8>>
    decreases ps.len(),
{
    if ps.len() == 0 {
        Seq::empty()
    } else {
        let prev = ps.drop_last();
        batch_frames(prev, state, status_json, public_der, tokens) + reply_frames(
            prefix_state(prev, state),
            ps.last().0,
            ps.last().1,
            status_json,
            public_der,
            tokens[ps.len() - 1],
        )
    }
}

/// Whether packet `i` of `ps` is a login start that decodes.
pub open spec fn is_login_start(ps: Seq<(i32, Seq<u8>)>, state: ConnectionState, i: int) -> bool {
    let st = prefix_state(ps.take(i), state);
    st == ConnectionState::Login && ps[i].0 == 0 && decodable(st, ps[i].0, ps[i].1)
}

/// The last login start of `ps`, if any.
pub open spec fn last_login_start(ps: Seq<(i32, Seq<u8>)>, state: ConnectionState) -> Option<int>
    decreases ps.len(),
{
    if ps.len() == 0 {
        None
    } else if is_login_start(ps, state, ps.len() - 1) {
        Some(ps.len() - 1)
    } else {
        last_login_start(ps.drop_last(), state)
    }
}

/// The bytes of each frame.
pub open spec fn frames_view(s: Seq<Vec<u8>>) -> Seq<Seq<u8>> {
    s.map_values(|f: Vec<u8>| f@)
}

/// The nickname and verify token a session holds after a run of packets
/// that do not end the batch: those of the last login start, or the ones it
/// held before.
pub open spec fn login_fields(
    ps: Seq<(i32, Seq<u8>)>,
    state: ConnectionState,
    tokens: Seq<Seq<u8>>,
    before: LoginSession,
    after: LoginSession,
) -> bool {
    match last_login_start(ps, state) {
        Some(j) => (after.nickname matches Some(n) && (parse_string(ps[j].1) matches Ok((c, _))
            && n@ == c)) && (after.verify_token matches Some(t) && t@ == tokens[j]),
        None => after.nickname == before.nickname && after.verify_token == before.verify_token,
    }
}

/// How a batch of packets ended: the first `k` were handled without ending
/// it (`tokens` holds the verify tokens drawn for them), and either that
/// was all of them and the result is `Continue`, or packet `k` ended the
/// batch with the result its state gives.
pub open spec fn batch_ends(
    ps: Seq<(i32, Seq<u8>)>,
    before: LoginSession,
    after: LoginSession,
    status_json: Seq<char>,
    public_der: Seq<u8>,
    k: int,
    tokens: Seq<Seq<u8>>,
    frames: Seq<Seq<u8>>,
    r: HandleResult,
) -> bool {
    let handled = ps.take(k);
    &&& 0 <= k <= ps.len()
    &&& tokens.len() == k
    &&& no_stop(handled, before.state)
    &&& after.state == prefix_state(handled, before.state)
    &&& frames == batch_frames(handled, before.state, status_json, public_der, tokens)
    &&& login_fields(handled, before.state, tokens, before, after)
    &&& (k == ps.len() <==> r is Continue)
    &&& k < ps.len() ==> stops(after.state, ps[k].0, ps[k].1) && match after.state {
        ConnectionState::Handshaking => r == HandleResult::Disconnect(
            LoginFailure::InvalidNextState,
        ),
        ConnectionState::Play => r == HandleResult::Disconnect(LoginFailure::UnknownPacket),
        _ => r is Authenticate || r == HandleResult::Disconnect(LoginFailure::InvalidVerifyToken)
            || r == HandleResult::Disconnect(LoginFailure::WrongVerifyToken) || r
            == HandleResult::Disconnect(LoginFailure::InvalidSharedSecret),
    }
}

/// What handling one decoded packet does: the result, the state, the
/// frames sent and the session fields, by packet.
pub open spec fn packet_outcome(
    packet: Packet,
    before: LoginSession,
    after: LoginSession,
    out_before: Seq<Vec<u8>>,
    out_after: Seq<Vec<u8>>,
    status_json: Seq<char>,
    public_der: Seq<u8>,
    r: HandleResult,
) -> bool {
    &&& (match packet {
                Packet::Handshake { next_state, .. } => out_after == out_before && if next_state
                    == 1 {
                    r is Continue && after.state == ConnectionState::Status
                } else if next_state == 2 {
                    r is Continue && after.state == ConnectionState::Login
                } else {
                    r == HandleResult::Disconnect(LoginFailure::InvalidNextState) && after.state == before.state
                },
                Packet::StatusRequest => r is Continue && after.state == before.state && sent(
                    out_before,
                    out_after,
                    frame_bytes(seq![0x00u8] + string_bytes(status_json)),
                ),
                Packet::Ping { ping } => r is Continue && after.state == before.state && sent(
                    out_before,
                    out_after,
                    frame_bytes(seq![0x01u8] + be_bytes((ping as u64) as nat, 8)),
                ),
                Packet::LoginStart { nickname } => r is Continue && after.state == before.state
                    && (after.nickname matches Some(n) && n@ == nickname@) && (after.verify_token matches Some(t) && sent(
                    out_before,
                    out_after,
                    frame_bytes(encryption_request_body(public_der, t@)),
                )),
                Packet::EncryptionResponse { .. } => after.state == before.state
                    && out_after == out_before && after.nickname == before.nickname && (
                r matches HandleResult::Authenticate(h) ==> (after.shared_secret matches Some(
                    s,
                ) && s@.len() == SECRET_LEN && h@ == server_hash_of(
                    Seq::empty(),
                    s@,
                    public_der,
                ))) && (r is Authenticate || r == HandleResult::Disconnect(
                    LoginFailure::InvalidVerifyToken,
                ) || r == HandleResult::Disconnect(LoginFailure::WrongVerifyToken) || r
                    == HandleResult::Disconnect(LoginFailure::InvalidSharedSecret)),
                _ => r == HandleResult::Disconnect(LoginFailure::UnknownPacket) && after.state
                    == before.state && out_after == out_before,
            })
    &&& (!(r is Authenticate) ==> after.shared_secret == before.shared_secret)
    &&& (!(packet is LoginStart) ==> after.nickname == before.nickname && after.verify_token == before.verify_token)
}

/// A batch ended as `batch_ends` says, for some count and tokens.
pub open spec fn batch_handled(
    ps: Seq<(i32, Seq<u8>)>,
    before: LoginSession,
    after: LoginSession,
    status_json: Seq<char>,
    public_der: Seq<u8>,
    frames: Seq<Seq<u8>>,
    r: HandleResult,
) -> bool {
    exists|k: int, tokens: Seq<Seq<u8>>|
        #[trigger] batch_ends(ps, before, after, status_json, public_der, k, tokens, frames, r)
}

proof fn lemma_batch_tokens(
    ps: Seq<(i32, Seq<u8>)>,
    state: ConnectionState,
    status_json: Seq<char>,
    public_der: Seq<u8>,
    t1: Seq<Seq<u8>>,
    t2: Seq<Seq<u8>>,
)
    requires
        ps.len() <= t1.len(),
        ps.len() <= t2.len(),
        forall|i: int| 0 <= i < ps.len() ==> t1[i] == t2[i],
    ensures
        batch_frames(ps, state, status_json, public_der, t1) == batch_frames(
            ps,
            state,
            status_json,
            public_der,
            t2,
        ),
    decreases ps.len(),
{
    if ps.len() > 0 {
        lemma_batch_tokens(ps.drop_last(), state, status_json, public_der, t1, t2);
    }
}

proof fn lemma_login_fields_tokens(
    ps: Seq<(i32, Seq<u8>)>,
    state: ConnectionState,
    t1: Seq<Seq<u8>>,
    t2: Seq<Seq<u8>>,
    before: LoginSession,
    after: LoginSession,
)
    requires
        ps.len() <= t1.len(),
        ps.len() <= t2.len(),
        forall|i: int| 0 <= i < ps.len() ==> t1[i] == t2[i],
    ensures
        login_fields(ps, state, t1, before, after) == login_fields(ps, state, t2, before, after),
{
    lemma_last_login_start_bound(ps, state);
}

proof fn lemma_last_login_start_bound(ps: Seq<(i32, Seq<u8>)>, state: ConnectionState)
    ensures
        last_login_start(ps, state) matches Some(j) ==> 0 <= j < ps.len(),
    decreases ps.len(),
{
    if ps.len() > 0 {
        lemma_last_login_start_bound(ps.drop_last(), state);
    }
}

proof fn lemma_frames_push(ob: Seq<Vec<u8>>, oa: Seq<Vec<u8>>, f: Seq<u8>)
    requires
        sent(ob, oa, f),
    ensures
        frames_view(oa) == frames_view(ob) + seq![f],
{
    assert(frames_view(oa) =~= frames_view(ob) + seq![f]) by {
        assert forall|j: int| 0 <= j < ob.len() implies oa[j] == ob[j] by {
            assert(oa.drop_last()[j] == oa[j]);
        }
    }
}

/// A decoded packet that lets the batch go on: how the state, the frames
/// and the session fields move.
proof fn lemma_continue(
    state: ConnectionState,
    id: i32,
    data: Seq<u8>,
    pk: Packet,
    before: LoginSession,
    after: LoginSession,
    ob: Seq<Vec<u8>>,
    oa: Seq<Vec<u8>>,
    status_json: Seq<char>,
    public_der: Seq<u8>,
)
    requires
        decodable(state, id, data),
        decodes_as(state, id, data, pk),
        before.state == state,
        packet_outcome(pk, before, after, ob, oa, status_json, public_der, HandleResult::Continue),
    ensures
        !stops(state, id, data),
        after.state == next_state_of(state, id, data),
        frames_view(oa) == frames_view(ob) + reply_frames(
            state,
            id,
            data,
            status_json,
            public_der,
            match after.verify_token {
                Some(t) => t@,
                None => Seq::empty(),
            },
        ),
        login_step(state, id, data, before, after, match after.verify_token {
            Some(t) => t@,
            None => Seq::empty(),
        }),
{
    lemma_step(state, id, data, pk);
    match pk {
        Packet::StatusRequest => {
            lemma_frames_push(ob, oa, frame_bytes(seq![0x00u8] + string_bytes(status_json)));
        },
        Packet::Ping { ping } => {
            lemma_frames_push(ob, oa, frame_bytes(seq![0x01u8] + be_bytes((ping as u64) as nat, 8)));
        },
        Packet::LoginStart { nickname } => {
            let t = after.verify_token->Some_0;
            lemma_frames_push(ob, oa, frame_bytes(encryption_request_body(public_der, t@)));
        },
        _ => {
            assert(frames_view(oa) =~= frames_view(ob) + Seq::<Seq<u8>>::empty());
        },
    }
}

/// A decoded packet that ends the batch: nothing moves, and the result is
/// the one its state gives.
proof fn lemma_stopped(
    state: ConnectionState,
    id: i32,
    data: Seq<u8>,
    pk: Packet,
    before: LoginSession,
    after: LoginSession,
    ob: Seq<Vec<u8>>,
    oa: Seq<Vec<u8>>,
    status_json: Seq<char>,
    public_der: Seq<u8>,
    r: HandleResult,
)
    requires
        decodable(state, id, data),
        decodes_as(state, id, data, pk),
        before.state == state,
        packet_outcome(pk, before, after, ob, oa, status_json, public_der, r),
        !(r is Continue),
    ensures
        stops(state, id, data),
        after.state == state,
        oa == ob,
        after.nickname == before.nickname,
        after.verify_token == before.verify_token,
        match state {
            ConnectionState::Handshaking => r == HandleResult::Disconnect(
                LoginFailure::InvalidNextState,
            ),
            ConnectionState::Play => r == HandleResult::Disconnect(LoginFailure::UnknownPacket),
            _ => r is Authenticate || r == HandleResult::Disconnect(
                LoginFailure::InvalidVerifyToken,
            ) || r == HandleResult::Disconnect(LoginFailure::WrongVerifyToken) || r
                == HandleResult::Disconnect(LoginFailure::InvalidSharedSecret),
        },
{
    lemma_step(state, id, data, pk);
}

/// How one packet that lets the batch go on moves the nickname and the
/// verify token: a login start sets them, anything else keeps them.
pub open spec fn login_step(
    state: ConnectionState,
    id: i32,
    data: Seq<u8>,
    before: LoginSession,
    after: LoginSession,
    token: Seq<u8>,
) -> bool {
    if state == ConnectionState::Login && id == 0 && decodable(state, id, data) {
        (after.nickname matches Some(n) && (parse_string(data) matches Ok((c, _)) && n@ == c)) && (
        after.verify_token matches Some(t) && t@ == token)
    } else {
        after.nickname == before.nickname && after.verify_token == before.verify_token
    }
}

/// One more packet that lets the batch go on keeps the loop's account of
/// the batch true.
proof fn lemma_batch_step(
    ps: Seq<(i32, Seq<u8>)>,
    i: int,
    start: ConnectionState,
    status_json: Seq<char>,
    public_der: Seq<u8>,
    ts: Seq<Seq<u8>>,
    token: Seq<u8>,
    first: LoginSession,
    before: LoginSession,
    after: LoginSession,
    fb: Seq<Seq<u8>>,
    fa: Seq<Seq<u8>>,
)
    requires
        0 <= i < ps.len(),
        ts.len() == i,
        no_stop(ps.take(i), start),
        before.state == prefix_state(ps.take(i), start),
        fb == batch_frames(ps.take(i), start, status_json, public_der, ts),
        login_fields(ps.take(i), start, ts, first, before),
        !stops(before.state, ps[i].0, ps[i].1),
        after.state == next_state_of(before.state, ps[i].0, ps[i].1),
        fa == fb + reply_frames(before.state, ps[i].0, ps[i].1, status_json, public_der, token),
        login_step(before.state, ps[i].0, ps[i].1, before, after, token),
    ensures
        no_stop(ps.take(i + 1), start),
        after.state == prefix_state(ps.take(i + 1), start),
        fa == batch_frames(ps.take(i + 1), start, status_json, public_der, ts.push(token)),
        login_fields(ps.take(i + 1), start, ts.push(token), first, after),
{
    let q = ps.take(i + 1);
    let ts2 = ts.push(token);
    assert(q.drop_last() =~= ps.take(i));
    assert(q.take(i) =~= ps.take(i));
    assert(q.last() == ps[i]);
    lemma_batch_tokens(ps.take(i), start, status_json, public_der, ts, ts2);
    lemma_login_fields_tokens(ps.take(i), start, ts, ts2, first, before);
    assert forall|j: int| 0 <= j < q.len() implies !stops(
        prefix_state(q.take(j), start),
        (#[trigger] q[j]).0,
        q[j].1,
    ) by {
        if j < i {
            assert(q.take(j) =~= ps.take(i).take(j));
            assert(q[j] == ps.take(i)[j]);
        }
    }
    assert(ts2[i] == token);
    assert(q[i] == ps[i]);
    lemma_last_login_start_bound(ps.take(i), start);
    if is_login_start(q, start, i) {
        assert(last_login_start(q, start) == Some(i));
    } else {
        assert(last_login_start(q, start) == last_login_start(ps.take(i), start));
        match last_login_start(ps.take(i), start) {
            Some(j) => {
                assert(ps.take(i)[j] == q[j]);
                assert(ts2[j] == ts[j]);
            },
            None => {},
        }
    }
}

/// A decoded packet ends the batch exactly as `stops` says, and one that
/// does not moves the state as `next_state_of` says.
proof fn lemma_step(state: ConnectionState, id: i32, data: Seq<u8>, p: Packet)
    requires
        decodes_as(state, id, data, p),
        decodable(state, id, data),
    ensures
        stops(state, id, data) <==> match p {
            Packet::Handshake { next_state, .. } => !(next_state == 1 || next_state == 2),
            Packet::EncryptionResponse { .. } => true,
            Packet::KeepAlive { .. } | Packet::ClientChatMessage { .. } => true,
            _ => false,
        },
        match p {
            Packet::Handshake { next_state, .. } => (next_state == 1 || next_state == 2) ==> (
            next_state_of(state, id, data) == if next_state == 1 {
                ConnectionState::Status
            } else {
                ConnectionState::Login
            }),
            _ => next_state_of(state, id, data) == state,
        },
        packet_state(p) == state,
{
}

fn bytes_equal(a: &[u8], b: &[u8]) -> (r: bool)
    ensures
        r == (a@ == b@),
{
    if a.len() != b.len() {
        return false;
    }
    let mut i: usize = 0;
    while i < a.len()
        invariant
            a@.len() == b@.len(),
            i <= a@.len(),
            forall|j: int| 0 <= j < i ==> a@[j] == b@[j],
        decreases a@.len() - i,
    {
        if a[i] != b[i] {
            return false;
        }
        i = i + 1;
    }
    assert(a@ =~= b@);
    true
}

/// Checks the decrypted parts of an encryption response against the token
/// that was sent, and yields the shared secret.
pub fn check_encryption_response(
    expected: Option<[u8; 4]>,
    token: Option<Vec<u8>>,
    secret: Option<Vec<u8>>,
) -> (r: Result<Vec<u8>, LoginFailure>)
    ensures
        match encryption_outcome(
            match expected {
                Some(e) => Some(e@),
                None => None,
            },
            match token {
                Some(t) => Some(t@),
                None => None,
            },
            match secret {
                Some(s) => Some(s@),
                None => None,
            },
        ) {
            Ok(s) => r matches Ok(v) && v@ == s,
            Err(f) => r matches Err(g) && g == f,
        },
{
    let t = match token {
        Some(t) => t,
        None => return Err(LoginFailure::InvalidVerifyToken),
    };
    let same = match expected {
        Some(e) => bytes_equal(t.as_slice(), &e),
        None => false,
    };
    if !same {
        return Err(LoginFailure::WrongVerifyToken);
    }
    match secret {
        Some(s) => if s.len() == SECRET_LEN {
            Ok(s)
        } else {
            Err(LoginFailure::InvalidSharedSecret)
        },
        None => Err(LoginFailure::InvalidSharedSecret),
    }
}

fn send(out: &mut Vec<Vec<u8>>, packet: &Packet)
    requires
        body_of(*packet) is Some,
    ensures
        sent(old(out)@, final(out)@, frame_bytes(body_of(*packet)->Some_0)),
{
    match packet.serialize_length() {
        Some(frame) => {
            out.push(frame);
            assert(out@.drop_last() =~= old(out)@);
        },
        None => {},
    }
}

impl LoginSession {
    pub fn new() -> (r: LoginSession)
        ensures
            r.state == ConnectionState::Handshaking,
            r.nickname is None,
            r.verify_token is None,
            r.shared_secret is None,
            r.uuid is None,
    {
        LoginSession {
            state: ConnectionState::Handshaking,
            nickname: None,
            verify_token: None,
            shared_secret: None,
            uuid: None,
        }
    }

    /// Acts on one decoded packet.
    pub fn handle_packet(
        &mut self,
        packet: Packet,
        keys: &ServerKeys,
        status_json: &String,
        out: &mut Vec<Vec<u8>>,
    ) -> (r: HandleResult)
        ensures
            packet_outcome(
                packet,
                *old(self),
                *final(self),
                old(out)@,
                final(out)@,
                status_json@,
                keys.public_der@,
                r,
            ),
    {
        match packet {
            Packet::Handshake { next_state, .. } => {
                if next_state == 1 {
                    self.state = ConnectionState::Status;
                    HandleResult::Continue
                } else if next_state == 2 {
                    self.state = ConnectionState::Login;
                    HandleResult::Continue
                } else {
                    HandleResult::Disconnect(LoginFailure::InvalidNextState)
                }
            },
            Packet::StatusRequest => {
                let json = status_json.clone();
                send(out, &Packet::StatusResponse { json });
                HandleResult::Continue
            },
            Packet::Ping { ping } => {
                send(out, &Packet::Pong { pong: ping });
                HandleResult::Continue
            },
            Packet::LoginStart { nickname } => {
                let token = random_token();
                self.verify_token = Some(token);
                let token_bytes = vec![token[0], token[1], token[2], token[3]];
                assert(token_bytes@ =~= token@);
                let request = Packet::EncryptionRequest {
                    server: String::new(),
                    public_key: keys.public_der.clone(),
                    verify_token: token_bytes,
                };
                send(out, &request);
                self.nickname = Some(nickname);
                HandleResult::Continue
            },
            Packet::EncryptionResponse { shared_secret, verify_token } => {
                let token = keys.decrypt(verify_token.as_slice());
                let secret = keys.decrypt(shared_secret.as_slice());
                match check_encryption_response(self.verify_token, token, secret) {
                    Ok(s) => {
                        let server_id: Vec<u8> = Vec::new();
                        let hash = server_hash(
                            server_id.as_slice(),
                            s.as_slice(),
                            keys.public_der.as_slice(),
                        );
                        self.shared_secret = Some(s);
                        HandleResult::Authenticate(hash)
                    },
                    Err(f) => HandleResult::Disconnect(f),
                }
            },
            _ => HandleResult::Disconnect(LoginFailure::UnknownPacket),
        }
    }

    /// Decodes and acts on the packets of one inbound run in order, until
    /// one of them asks for more than waiting. A packet that does not decode
    /// in the current state is passed over.
    pub fn handle(
        &mut self,
        packets: &Vec<RawPacket>,
        keys: &ServerKeys,
        status_json: &String,
    ) -> (r: (HandleResult, Vec<Vec<u8>>))
        ensures
            batch_handled(
                raw_views(packets@),
                *old(self),
                *final(self),
                status_json@,
                keys.public_der@,
                frames_view(r.1@),
                r.0,
            ),
            r.0 matches HandleResult::Authenticate(h) ==> (final(self).shared_secret matches Some(
                s,
            ) && s@.len() == SECRET_LEN && h@ == server_hash_of(
                Seq::empty(),
                s@,
                keys.public_der@,
            )),
    {
        let ghost ps = raw_views(packets@);
        let ghost start = self.state;
        let ghost ts: Seq<Seq<u8>> = Seq::empty();
        let mut out: Vec<Vec<u8>> = Vec::new();
        let mut i: usize = 0;
        assert(ps.take(0) =~= Seq::<(i32, Seq<u8>)>::empty());
        assert(frames_view(out@) =~= Seq::<Seq<u8>>::empty());
        while i < packets.len()
            invariant
                ps == raw_views(packets@),
                ps.len() == packets@.len(),
                start == old(self).state,
                i <= packets@.len(),
                ts.len() == i,
                no_stop(ps.take(i as int), start),
                self.state == prefix_state(ps.take(i as int), start),
                frames_view(out@) == batch_frames(
                    ps.take(i as int),
                    start,
                    status_json@,
                    keys.public_der@,
                    ts,
                ),
                login_fields(ps.take(i as int), start, ts, *old(self), *self),
            decreases packets@.len() - i,
        {
            let raw = &packets[i];
            let ghost before = *self;
            let ghost out_before = out@;
            proof {
                assert(ps[i as int] == raw.view());
            }
            let mut reader = DataReader::new(raw.data);
            let state = self.state;
            let ghost mut token: Seq<u8> = Seq::empty();
            match Packet::read(raw.id, &mut reader, state) {
                Some(packet) => {
                    let ghost pk = packet;
                    let result = self.handle_packet(packet, keys, status_json, &mut out);
                    match result {
                        HandleResult::Continue => {
                            proof {
                                token = match self.verify_token {
                                    Some(t) => t@,
                                    None => Seq::empty(),
                                };
                                lemma_continue(
                                    state,
                                    raw.id,
                                    raw.data@,
                                    pk,
                                    before,
                                    *self,
                                    out_before,
                                    out@,
                                    status_json@,
                                    keys.public_der@,
                                );
                            }
                        },
                        _ => {
                            proof {
                                lemma_stopped(
                                    state,
                                    raw.id,
                                    raw.data@,
                                    pk,
                                    before,
                                    *self,
                                    out_before,
                                    out@,
                                    status_json@,
                                    keys.public_der@,
                                    result,
                                );
                                assert(ps.take(i as int) == raw_views(packets@).take(i as int));
                                assert(batch_ends(
                                    raw_views(packets@),
                                    *old(self),
                                    *self,
                                    status_json@,
                                    keys.public_der@,
                                    i as int,
                                    ts,
                                    frames_view(out@),
                                    result,
                                ));
                                assert(batch_handled(
                                    raw_views(packets@),
                                    *old(self),
                                    *self,
                                    status_json@,
                                    keys.public_der@,
                                    frames_view(out@),
                                    result,
                                ));
                            }
                            return (result, out);
                        },
                    }
                },
                None => {
                    proof {
                        assert(frames_view(out@) =~= frames_view(out_before) + Seq::<
                            Seq<u8>,
                        >::empty());
                    }
                },
            }
            proof {
                lemma_batch_step(
                    ps,
                    i as int,
                    start,
                    status_json@,
                    keys.public_der@,
                    ts,
                    token,
                    *old(self),
                    before,
                    *self,
                    frames_view(out_before),
                    frames_view(out@),
                );
                ts = ts.push(token);
            }
            i = i + 1;
        }
        proof {
            assert(ps.take(i as int) =~= ps);
            assert(ts.len() == i);
            assert(no_stop(ps.take(i as int), start));
            assert(login_fields(ps.take(i as int), start, ts, *old(self), *self));
            assert(batch_ends(
                raw_views(packets@),
                *old(self),
                *self,
                status_json@,
                keys.public_der@,
                i as int,
                ts,
                frames_view(out@),
                HandleResult::Continue,
            ));
            assert(batch_handled(
                raw_views(packets@),
                *old(self),
                *self,
                status_json@,
                keys.public_der@,
                frames_view(out@),
                HandleResult::Continue,
            ));
        }
        (HandleResult::Continue, out)
    }

    /// Ends a login once the session service has answered: with the
    /// player's profile the connection moves to Play and the client gets
    /// its login success; without one, or before the shared secret is
    /// known, the login fails.
    pub fn complete_login(&mut self, identity: Option<([u8; 16], String)>, out: &mut Vec<
        Vec<u8>,
    >) -> (r: HandleResult)
        ensures
            match (identity, old(self).shared_secret) {
                (Some((uuid, name)), Some(_)) => r is Login && final(self).state
                    == ConnectionState::Play && final(self).uuid == Some(uuid) && (final(
                    self).nickname matches Some(n) && n@ == name@) && sent(
                    old(out)@,
                    final(out)@,
                    frame_bytes(login_success_body(uuid@, name@)),
                ),
                _ => r == HandleResult::Disconnect(LoginFailure::AuthenticationFailed) && final(
                    self).state == old(self).state && final(out)@ == old(out)@,
            },
            final(self).shared_secret == old(self).shared_secret,
    {
        if self.shared_secret.is_none() {
            return HandleResult::Disconnect(LoginFailure::AuthenticationFailed);
        }
        match identity {
            Some((uuid, name)) => {
                let success = Packet::LoginSuccess { uuid, nickname: name.clone() };
                send(out, &success);
                self.uuid = Some(uuid);
                self.nickname = Some(name);
                self.state = ConnectionState::Play;
                HandleResult::Login
            },
            None => HandleResult::Disconnect(LoginFailure::AuthenticationFailed),
        }
    }
}

/// A chat component holding plain text, as JSON text.
pub fn chat_json(text: &str) -> (r: String)
    ensures
        r@ == chat_json_of(text@),
{
    chat_text(text)
}

/// The frame that tells a peer why it is being disconnected, where its
/// state has such a packet: a chat component with `reason` as its text.
pub fn disconnect_frame(state: ConnectionState, reason: &str) -> (r: Option<Vec<u8>>)
    ensures
        state == ConnectionState::Login ==> (r matches Some(f) && f@ == frame_bytes(
            seq![0x00u8] + string_bytes(chat_json_of(reason@)),
        )),
        state == ConnectionState::Play ==> (r matches Some(f) && f@ == frame_bytes(
            seq![0x40u8] + string_bytes(chat_json_of(reason@)),
        )),
        state == ConnectionState::Handshaking || state == ConnectionState::Status ==> r is None,
{
    match state {
        ConnectionState::Login => Packet::DisconnectLogin { reason: chat_text(reason) }.serialize_length(),
        ConnectionState::Play => Packet::DisconnectPlay { reason: chat_text(reason) }.serialize_length(),
        _ => None,
    }
}

/// A verify token that comes back with any one bit flipped is refused as
/// wrong, whatever the shared secret decrypted to.
pub proof fn lemma_flipped_token_refused(
    token: Seq<u8>,
    i: int,
    bit: u8,
    secret: Option<Seq<u8>>,
)
    requires
        token.len() == 4,
        0 <= i < 4,
        bit < 8,
    ensures
        encryption_outcome(Some(token), Some(token.update(i, token[i] ^ (1u8 << bit))), secret)
            == Err::<Seq<u8>, LoginFailure>(LoginFailure::WrongVerifyToken),
{
    let x = token[i];
    assert(x ^ (1u8 << bit) != x) by (bit_vector)
        requires
            bit < 8,
    ;
    let flipped = token.update(i, x ^ (1u8 << bit));
    assert(flipped[i] != token[i]);
    assert(Some(token) != Some(flipped));
}

} // verus!
