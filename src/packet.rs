//! The wire messages: a closed union whose variants each belong to one
//! connection state. Decoding dispatches on the state first and the id
//! second, so no variant is built outside its state.
use vstd::prelude::*;
use crate::data_reader::DataReader;
use crate::data_writer::DataWriter;
use crate::framing::{frame_bytes, lemma_parse_var_len, prefix_length};
use crate::position::{packed_bits, Position};
use crate::text::{hyphenated, uuid_text};
use crate::wire::{
    be_bytes, be_value, parse_string, parse_varint, string_bytes, varint_bytes, varlong_bytes,
    VARINT_MAX_BYTES,
};

verus! {

#[derive(Debug, Clone, Copy, PartialEq, Eq, Structural)]
pub enum ConnectionState {
    Handshaking,
    Status,
    Login,
    Play,
}

/// One inventory slot of a window; an item id and count go with a present
/// slot.
#[derive(Debug, Clone, Copy, PartialEq, Eq, Structural)]
pub struct Slot {
    pub present: bool,
    pub item_id: Option<i32>,
    pub item_count: Option<i8>,
}

/// One signed property of a player profile.
#[derive(Debug)]
pub struct PlayerInfoProperties {
    pub name: String,
    pub value: String,
    pub signature: Option<String>,
}

/// What a player-list entry changes. Display names are chat components in
/// their JSON text form.
#[derive(Debug)]
pub enum PlayerInfoAction {
    AddPlayer {
        name: String,
        properties: Vec<PlayerInfoProperties>,
        gamemode: i32,
        ping: i32,
        display_name: Option<String>,
    },
    UpdateGameMode { gamemode: i32 },
    UpdateLatency { ping: i32 },
    UpdateDisplayName { display_name: Option<String> },
    RemovePlayer,
}

#[derive(Debug)]
pub struct PlayerInfoPlayer {
    pub uuid: [u8; 16],
    pub action: PlayerInfoAction,
}

/// A world border change; radii and centres are IEEE-754 bit patterns.
#[derive(Debug, Clone, Copy, PartialEq, Eq, Structural)]
#[allow(inconsistent_fields)]
pub enum WorldBorderAction {
    SetSize { radius: u64 },
    LerpSize { old_radius: u64, new_radius: u64, speed: i32 },
    SetCenter { x: u64, z: u64 },
    Initialize {
        x: u64,
        z: u64,
        old_radius: u64,
        new_radius: u64,
        speed: i64,
        portal_teleport_boundary: i32,
        warning_time: i32,
        warning_blocks: i32,
    },
    SetWarningTime { warning_time: i32 },
    SetWarningBlocks { warning_blocks: i32 },
}

/// Floating-point fields travel as their IEEE-754 bit patterns.
#[derive(Debug)]
pub enum Packet {
    Handshake { protocol_version: i32, server_address: String, server_port: u16, next_state: u8 },
    StatusRequest,
    Ping { ping: i64 },
    StatusResponse { json: String },
    Pong { pong: i64 },
    LoginStart { nickname: String },
    EncryptionRequest { server: String, public_key: Vec<u8>, verify_token: Vec<u8> },
    EncryptionResponse { shared_secret: Vec<u8>, verify_token: Vec<u8> },
    LoginSuccess { uuid: [u8; 16], nickname: String },
    /// `reason` is a chat component in its JSON text form.
    DisconnectLogin { reason: String },
    KeepAlive { id: i32 },
    ClientChatMessage { message: String },
    JoinGame {
        entity_id: i32,
        gamemode: u8,
        dimension: i8,
        difficulty: u8,
        max_players: u8,
        level_type: String,
        reduced_debug_info: bool,
    },
    SpawnPosition { location: Position },
    HeldItemChange { slot: u8 },
    /// `reason` is a chat component in its JSON text form.
    DisconnectPlay { reason: String },
    PlayerPositionAndLook { x: u64, y: u64, z: u64, yaw: u32, pitch: u32, flags: u8 },
    TimeUpdate { world_age: i64, time_of_day: i64 },
    WindowItems { window_id: u8, slots: Vec<Slot> },
    PlayerInfo { action_id: i32, players: Vec<PlayerInfoPlayer> },
    WorldBorder { action: WorldBorderAction },
}

/// The state a variant belongs to.
pub open spec fn packet_state(p: Packet) -> ConnectionState {
    match p {
        Packet::Handshake { .. } => ConnectionState::Handshaking,
        Packet::StatusRequest | Packet::Ping { .. } | Packet::StatusResponse { .. } | Packet::Pong {
            ..
        } => ConnectionState::Status,
        Packet::LoginStart { .. } | Packet::EncryptionRequest { .. } | Packet::EncryptionResponse {
            ..
        } | Packet::LoginSuccess { .. } | Packet::DisconnectLogin { .. } => ConnectionState::Login,
        _ => ConnectionState::Play,
    }
}

/// The fields of a handshake: protocol version, server address, port and
/// the requested next state.
pub open spec fn handshake_fields(s: Seq<u8>) -> Option<(i32, Seq<char>, u16, u8)> {
    match parse_varint(s) {
        Err(_) => None,
        Ok((version, l1)) => match parse_string(s.skip(l1 as int)) {
            Err(_) => None,
            Ok((address, l2)) => {
                let t = s.skip((l1 + l2) as int);
                if t.len() >= 3 {
                    Some((version, address, be_value(t.take(2)) as u16, t[2]))
                } else {
                    None
                }
            },
        },
    }
}

/// A varint length, then that many bytes.
pub open spec fn parse_data(s: Seq<u8>) -> Option<(Seq<u8>, nat)> {
    match parse_varint(s) {
        Err(_) => None,
        Ok((n, l)) => if 0 <= n && l + n <= s.len() {
            Some((s.subrange(l as int, l + n), (l + n) as nat))
        } else {
            None
        },
    }
}

/// The fields of an encryption response: the encrypted shared secret and
/// the encrypted verify token.
pub open spec fn encryption_response_fields(s: Seq<u8>) -> Option<(Seq<u8>, Seq<u8>)> {
    match parse_data(s) {
        None => None,
        Some((secret, l1)) => match parse_data(s.skip(l1 as int)) {
            None => None,
            Some((token, _)) => Some((secret, token)),
        },
    }
}

/// Whether a payload with this id can be read in this state.
pub open spec fn decodable(state: ConnectionState, id: i32, s: Seq<u8>) -> bool {
    match state {
        ConnectionState::Handshaking => id == 0 && handshake_fields(s) is Some,
        ConnectionState::Status => id == 0 || (id == 1 && s.len() >= 8),
        ConnectionState::Login => (id == 0 && parse_string(s) is Ok) || (id == 1
            && encryption_response_fields(s) is Some),
        ConnectionState::Play => (id == 0 && parse_varint(s) is Ok) || (id == 1 && parse_string(
            s,
        ) is Ok),
    }
}

/// `p` is what the payload `s` with this id decodes to in this state.
pub open spec fn decodes_as(state: ConnectionState, id: i32, s: Seq<u8>, p: Packet) -> bool {
    match p {
        Packet::Handshake { protocol_version, server_address, server_port, next_state } => state
            == ConnectionState::Handshaking && id == 0 && handshake_fields(s) == Some(
            (protocol_version, server_address@, server_port, next_state),
        ),
        Packet::StatusRequest => state == ConnectionState::Status && id == 0,
        Packet::Ping { ping } => state == ConnectionState::Status && id == 1 && s.len() >= 8 && ping
            == (be_value(s.take(8)) as u64) as i64,
        Packet::LoginStart { nickname } => state == ConnectionState::Login && id == 0 && (parse_string(
            s,
        ) matches Ok((c, _)) && c == nickname@),
        Packet::EncryptionResponse { shared_secret, verify_token } => state == ConnectionState::Login
            && id == 1 && encryption_response_fields(s) == Some((shared_secret@, verify_token@)),
        Packet::KeepAlive { id: k } => state == ConnectionState::Play && id == 0 && (parse_varint(
            s,
        ) matches Ok((v, _)) && v == k),
        Packet::ClientChatMessage { message } => state == ConnectionState::Play && id == 1 && (
        parse_string(s) matches Ok((c, _)) && c == message@),
        _ => false,
    }
}

pub open spec fn slot_bytes(slot: Slot) -> Option<Seq<u8>> {
    if !slot.present {
        Some(seq![0u8])
    } else {
        match (slot.item_id, slot.item_count) {
            (Some(item), Some(count)) => Some(seq![1u8] + varint_bytes(item) + seq![count as u8]),
            _ => None,
        }
    }
}

pub open spec fn slots_bytes(slots: Seq<Slot>) -> Option<Seq<u8>>
    decreases slots.len(),
{
    if slots.len() == 0 {
        Some(Seq::empty())
    } else {
        match (slots_bytes(slots.drop_last()), slot_bytes(slots.last())) {
            (Some(a), Some(b)) => Some(a + b),
            _ => None,
        }
    }
}

/// A boolean flag, then the string where there is one.
pub open spec fn optional_string_bytes(s: Option<String>) -> Seq<u8> {
    match s {
        Some(t) => seq![1u8] + string_bytes(t@),
        None => seq![0u8],
    }
}

pub open spec fn property_bytes(p: PlayerInfoProperties) -> Seq<u8> {
    string_bytes(p.name@) + string_bytes(p.value@) + optional_string_bytes(p.signature)
}

pub open spec fn properties_bytes(s: Seq<PlayerInfoProperties>) -> Seq<u8>
    decreases s.len(),
{
    if s.len() == 0 {
        Seq::empty()
    } else {
        properties_bytes(s.drop_last()) + property_bytes(s.last())
    }
}

pub open spec fn player_bytes(p: PlayerInfoPlayer) -> Seq<u8> {
    p.uuid@ + match p.action {
        PlayerInfoAction::AddPlayer { name, properties, gamemode, ping, display_name } =>
            string_bytes(name@) + varint_bytes(properties@.len() as i32) + properties_bytes(
            properties@,
        ) + varint_bytes(gamemode) + varint_bytes(ping) + optional_string_bytes(display_name),
        PlayerInfoAction::UpdateGameMode { gamemode } => varint_bytes(gamemode),
        PlayerInfoAction::UpdateLatency { ping } => varint_bytes(ping),
        PlayerInfoAction::UpdateDisplayName { display_name } => optional_string_bytes(
            display_name,
        ),
        PlayerInfoAction::RemovePlayer => Seq::empty(),
    }
}

pub open spec fn players_bytes(s: Seq<PlayerInfoPlayer>) -> Seq<u8>
    decreases s.len(),
{
    if s.len() == 0 {
        Seq::empty()
    } else {
        players_bytes(s.drop_last()) + player_bytes(s.last())
    }
}

pub open spec fn border_bytes(a: WorldBorderAction) -> Seq<u8> {
    match a {
        WorldBorderAction::SetSize { radius } => varint_bytes(0) + be_bytes(radius as nat, 8),
        WorldBorderAction::LerpSize { old_radius, new_radius, speed } => varint_bytes(1) + be_bytes(
            old_radius as nat,
            8,
        ) + be_bytes(new_radius as nat, 8) + varint_bytes(speed),
        WorldBorderAction::SetCenter { x, z } => varint_bytes(2) + be_bytes(x as nat, 8) + be_bytes(
            z as nat,
            8,
        ),
        WorldBorderAction::Initialize {
            x,
            z,
            old_radius,
            new_radius,
            speed,
            portal_teleport_boundary,
            warning_time,
            warning_blocks,
        } => varint_bytes(3) + be_bytes(x as nat, 8) + be_bytes(z as nat, 8) + be_bytes(
            old_radius as nat,
            8,
        ) + be_bytes(new_radius as nat, 8) + varlong_bytes(speed) + varint_bytes(
            portal_teleport_boundary,
        ) + varint_bytes(warning_time) + varint_bytes(warning_blocks),
        WorldBorderAction::SetWarningTime { warning_time } => varint_bytes(4) + varint_bytes(
            warning_time,
        ),
        WorldBorderAction::SetWarningBlocks { warning_blocks } => varint_bytes(5) + varint_bytes(
            warning_blocks,
        ),
    }
}

/// The id and fields of an outbound packet, without the length prefix;
/// `None` for the packets that only clients send, and for a present slot
/// without its item.
pub open spec fn body_of(p: Packet) -> Option<Seq<u8>> {
    match p {
        Packet::StatusResponse { json } => Some(seq![0x00u8] + string_bytes(json@)),
        Packet::Pong { pong } => Some(seq![0x01u8] + be_bytes((pong as u64) as nat, 8)),
        Packet::EncryptionRequest { server, public_key, verify_token } => Some(
            seq![0x01u8] + string_bytes(server@) + varint_bytes(public_key@.len() as i32)
                + public_key@ + varint_bytes(verify_token@.len() as i32) + verify_token@,
        ),
        Packet::LoginSuccess { uuid, nickname } => Some(
            seq![0x02u8] + string_bytes(hyphenated(uuid@)) + string_bytes(nickname@),
        ),
        Packet::DisconnectLogin { reason } => Some(seq![0x00u8] + string_bytes(reason@)),
        Packet::KeepAlive { id } => Some(seq![0x00u8] + varint_bytes(id)),
        Packet::JoinGame {
            entity_id,
            gamemode,
            dimension,
            difficulty,
            max_players,
            level_type,
            reduced_debug_info,
        } => Some(
            seq![0x01u8] + be_bytes((entity_id as u32) as nat, 4) + seq![
                gamemode,
                dimension as u8,
                difficulty,
                max_players,
            ] + string_bytes(level_type@) + seq![if reduced_debug_info { 1u8 } else { 0u8 }],
        ),
        Packet::SpawnPosition { location } => Some(
            seq![0x05u8] + be_bytes(packed_bits(location.x, location.y, location.z) as nat, 8),
        ),
        Packet::HeldItemChange { slot } => Some(seq![0x09u8, slot]),
        Packet::DisconnectPlay { reason } => Some(seq![0x40u8] + string_bytes(reason@)),
        Packet::PlayerPositionAndLook { x, y, z, yaw, pitch, flags } => Some(
            seq![0x08u8] + be_bytes(x as nat, 8) + be_bytes(y as nat, 8) + be_bytes(z as nat, 8)
                + be_bytes(yaw as nat, 4) + be_bytes(pitch as nat, 4) + seq![flags],
        ),
        Packet::TimeUpdate { world_age, time_of_day } => Some(
            seq![0x03u8] + be_bytes((world_age as u64) as nat, 8) + be_bytes(
                (time_of_day as u64) as nat,
                8,
            ),
        ),
        Packet::WindowItems { window_id, slots } => match slots_bytes(slots@) {
            Some(b) => Some(
                seq![0x30u8, window_id] + be_bytes(((slots@.len() as i16) as u16) as nat, 2) + b,
            ),
            None => None,
        },
        Packet::PlayerInfo { action_id, players } => Some(
            seq![0x38u8] + varint_bytes(action_id) + varint_bytes(players@.len() as i32)
                + players_bytes(players@),
        ),
        Packet::WorldBorder { action } => Some(seq![0x44u8] + border_bytes(action)),
        _ => None,
    }
}

impl Packet {
    /// Decodes the payload of packet `id` received in `state`; `None` for a
    /// pair that the state does not know, or a payload that does not decode,
    /// and then the reader stays where it was.
    pub fn read(id: i32, reader: &mut DataReader, state: ConnectionState) -> (r: Option<Packet>)
        ensures
            r is Some <==> decodable(state, id, old(reader).rest()),
            r matches Some(p) ==> decodes_as(state, id, old(reader).rest(), p),
            r matches Some(p) ==> packet_state(p) == state,
            final(reader).data@ == old(reader).data@,
            r is None ==> final(reader).cursor == old(reader).cursor,
    {
        let start = reader.cursor;
        let r = Packet::read_fields(id, reader, state);
        if r.is_none() {
            reader.cursor = start;
        }
        r
    }

    fn read_fields(id: i32, reader: &mut DataReader, state: ConnectionState) -> (r: Option<Packet>)
        ensures
            r is Some <==> decodable(state, id, old(reader).rest()),
            r matches Some(p) ==> decodes_as(state, id, old(reader).rest(), p),
            r matches Some(p) ==> packet_state(p) == state,
            final(reader).data@ == old(reader).data@,
    {
        match state {
            ConnectionState::Handshaking => {
                if id != 0 {
                    return None;
                }
                let ghost s = reader.rest();
                let protocol_version = match reader.read_varint() {
                    Ok(v) => v,
                    Err(_) => return None,
                };
                let ghost s1 = reader.rest();
                let server_address = match reader.read_string() {
                    Ok(v) => v,
                    Err(_) => return None,
                };
                let ghost s2 = reader.rest();
                proof {
                    lemma_parse_var_len(s, VARINT_MAX_BYTES as nat);
                    lemma_parse_var_len(s1, VARINT_MAX_BYTES as nat);
                    if let Ok((_, l1)) = parse_varint(s) {
                        if let Ok((_, l2)) = parse_string(s1) {
                            assert(s2 =~= s.skip((l1 + l2) as int));
                        }
                    }
                }
                let server_port = match reader.read_u16() {
                    Ok(v) => v,
                    Err(_) => return None,
                };
                let next_state = match reader.read_u8() {
                    Ok(v) => v,
                    Err(_) => return None,
                };
                proof {
                    assert(s2.skip(2)[0] == s2[2]);
                }
                Some(Packet::Handshake { protocol_version, server_address, server_port, next_state })
            },
            ConnectionState::Status => {
                if id == 0 {
                    Some(Packet::StatusRequest)
                } else if id == 1 {
                    match reader.read_i64() {
                        Ok(ping) => Some(Packet::Ping { ping }),
                        Err(_) => None,
                    }
                } else {
                    None
                }
            },
            ConnectionState::Login => {
                if id == 0 {
                    match reader.read_string() {
                        Ok(nickname) => Some(Packet::LoginStart { nickname }),
                        Err(_) => None,
                    }
                } else if id == 1 {
                    let shared_secret = match reader.read_data() {
                        Ok(v) => v,
                        Err(_) => return None,
                    };
                    let verify_token = match reader.read_data() {
                        Ok(v) => v,
                        Err(_) => return None,
                    };
                    Some(Packet::EncryptionResponse { shared_secret, verify_token })
                } else {
                    None
                }
            },
            ConnectionState::Play => {
                if id == 0 {
                    match reader.read_varint() {
                        Ok(id) => Some(Packet::KeepAlive { id }),
                        Err(_) => None,
                    }
                } else if id == 1 {
                    match reader.read_string() {
                        Ok(message) => Some(Packet::ClientChatMessage { message }),
                        Err(_) => None,
                    }
                } else {
                    None
                }
            },
        }
    }

    /// The id and fields, without the length prefix.
    pub fn serialize(&self) -> (r: Option<Vec<u8>>)
        ensures
            match body_of(*self) {
                Some(b) => r matches Some(v) && v@ == b,
                None => r is None,
            },
    {
        let mut w = DataWriter::new();
        match self {
            Packet::StatusResponse { json } => {
                w.write_u8(0x00);
                w.write_string(json);
            },
            Packet::Pong { pong } => {
                w.write_u8(0x01);
                w.write_i64(*pong);
            },
            Packet::EncryptionRequest { server, public_key, verify_token } => {
                w.write_u8(0x01);
                w.write_string(server);
                w.write_varint(#[verifier::truncate] (public_key.len() as i32));
                w.write_vec_data(public_key);
                w.write_varint(#[verifier::truncate] (verify_token.len() as i32));
                w.write_vec_data(verify_token);
            },
            Packet::LoginSuccess { uuid, nickname } => {
                w.write_u8(0x02);
                let text = uuid_text(*uuid);
                w.write_string(&text);
                w.write_string(nickname);
            },
            Packet::DisconnectLogin { reason } => {
                w.write_u8(0x00);
                w.write_string(reason);
            },
            Packet::KeepAlive { id } => {
                w.write_u8(0x00);
                w.write_varint(*id);
            },
            Packet::JoinGame {
                entity_id,
                gamemode,
                dimension,
                difficulty,
                max_players,
                level_type,
                reduced_debug_info,
            } => {
                w.write_u8(0x01);
                w.write_i32(*entity_id);
                w.write_u8(*gamemode);
                w.write_i8(*dimension);
                w.write_u8(*difficulty);
                w.write_u8(*max_players);
                w.write_string(level_type);
                w.write_bool(*reduced_debug_info);
            },
            Packet::SpawnPosition { location } => {
                w.write_u8(0x05);
                w.write_position(location);
            },
            Packet::HeldItemChange { slot } => {
                w.write_u8(0x09);
                w.write_u8(*slot);
            },
            Packet::DisconnectPlay { reason } => {
                w.write_u8(0x40);
                w.write_string(reason);
            },
            Packet::PlayerPositionAndLook { x, y, z, yaw, pitch, flags } => {
                proof {
                    lemma_u64_bits(*x);
                    lemma_u64_bits(*y);
                    lemma_u64_bits(*z);
                    lemma_u32_bits(*yaw);
                    lemma_u32_bits(*pitch);
                }
                w.write_u8(0x08);
                w.write_i64(#[verifier::truncate] (*x as i64));
                w.write_i64(#[verifier::truncate] (*y as i64));
                w.write_i64(#[verifier::truncate] (*z as i64));
                w.write_i32(#[verifier::truncate] (*yaw as i32));
                w.write_i32(#[verifier::truncate] (*pitch as i32));
                w.write_u8(*flags);
            },
            Packet::TimeUpdate { world_age, time_of_day } => {
                w.write_u8(0x03);
                w.write_i64(*world_age);
                w.write_i64(*time_of_day);
            },
            Packet::WindowItems { window_id, slots } => {
                w.write_u8(0x30);
                w.write_u8(*window_id);
                w.write_i16(#[verifier::truncate] (slots.len() as i16));
                if !write_slots(&mut w, slots) {
                    return None;
                }
            },
            Packet::PlayerInfo { action_id, players } => {
                w.write_u8(0x38);
                w.write_varint(*action_id);
                w.write_varint(#[verifier::truncate] (players.len() as i32));
                write_players(&mut w, players);
            },
            Packet::WorldBorder { action } => {
                w.write_u8(0x44);
                write_border(&mut w, action);
            },
            _ => {
                return None;
            },
        }
        Some(w.data)
    }

    /// The packet as one frame, ready for the stream: the varint length,
    /// then the id and fields.
    pub fn serialize_length(&self) -> (r: Option<Vec<u8>>)
        ensures
            match body_of(*self) {
                Some(b) => r matches Some(v) && v@ == frame_bytes(b),
                None => r is None,
            },
    {
        match self.serialize() {
            Some(body) => Some(prefix_length(&body)),
            None => None,
        }
    }
}

proof fn lemma_u64_bits(v: u64)
    ensures
        ((v as i64) as u64) == v,
{
    assert(((v as i64) as u64) == v) by (bit_vector);
}

proof fn lemma_u32_bits(v: u32)
    ensures
        ((v as i32) as u32) == v,
{
    assert(((v as i32) as u32) == v) by (bit_vector);
}

fn write_optional_string(w: &mut DataWriter, s: &Option<String>)
    ensures
        final(w).data@ == old(w).data@ + optional_string_bytes(*s),
{
    match s {
        Some(t) => {
            w.write_bool(true);
            w.write_string(t);
        },
        None => {
            w.write_bool(false);
        },
    }
}

fn write_properties(w: &mut DataWriter, properties: &Vec<PlayerInfoProperties>)
    ensures
        final(w).data@ == old(w).data@ + properties_bytes(properties@),
{
    let mut i: usize = 0;
    assert(properties@.take(0) =~= Seq::<PlayerInfoProperties>::empty());
    while i < properties.len()
        invariant
            i <= properties@.len(),
            w.data@ == old(w).data@ + properties_bytes(properties@.take(i as int)),
        decreases properties@.len() - i,
    {
        let p = &properties[i];
        assert(properties@.take(i + 1).drop_last() =~= properties@.take(i as int));
        w.write_string(&p.name);
        w.write_string(&p.value);
        write_optional_string(w, &p.signature);
        i = i + 1;
        assert(w.data@ =~= old(w).data@ + properties_bytes(properties@.take(i as int)));
    }
    assert(properties@.take(i as int) =~= properties@);
}

fn write_players(w: &mut DataWriter, players: &Vec<PlayerInfoPlayer>)
    ensures
        final(w).data@ == old(w).data@ + players_bytes(players@),
{
    let mut i: usize = 0;
    assert(players@.take(0) =~= Seq::<PlayerInfoPlayer>::empty());
    while i < players.len()
        invariant
            i <= players@.len(),
            w.data@ == old(w).data@ + players_bytes(players@.take(i as int)),
        decreases players@.len() - i,
    {
        let player = &players[i];
        assert(players@.take(i + 1).drop_last() =~= players@.take(i as int));
        let ghost before = w.data@;
        w.write_data(&player.uuid);
        match &player.action {
            PlayerInfoAction::AddPlayer { name, properties, gamemode, ping, display_name } => {
                w.write_string(name);
                w.write_varint(#[verifier::truncate] (properties.len() as i32));
                write_properties(w, properties);
                w.write_varint(*gamemode);
                w.write_varint(*ping);
                write_optional_string(w, display_name);
            },
            PlayerInfoAction::UpdateGameMode { gamemode } => {
                w.write_varint(*gamemode);
            },
            PlayerInfoAction::UpdateLatency { ping } => {
                w.write_varint(*ping);
            },
            PlayerInfoAction::UpdateDisplayName { display_name } => {
                write_optional_string(w, display_name);
            },
            PlayerInfoAction::RemovePlayer => {},
        }
        assert(w.data@ =~= before + player_bytes(players@[i as int]));
        i = i + 1;
        assert(w.data@ =~= old(w).data@ + players_bytes(players@.take(i as int)));
    }
    assert(players@.take(i as int) =~= players@);
}

fn write_border(w: &mut DataWriter, action: &WorldBorderAction)
    ensures
        final(w).data@ == old(w).data@ + border_bytes(*action),
{
    match action {
        WorldBorderAction::SetSize { radius } => {
            proof {
                lemma_u64_bits(*radius);
            }
            w.write_varint(0);
            w.write_i64(#[verifier::truncate] (*radius as i64));
        },
        WorldBorderAction::LerpSize { old_radius, new_radius, speed } => {
            proof {
                lemma_u64_bits(*old_radius);
                lemma_u64_bits(*new_radius);
            }
            w.write_varint(1);
            w.write_i64(#[verifier::truncate] (*old_radius as i64));
            w.write_i64(#[verifier::truncate] (*new_radius as i64));
            w.write_varint(*speed);
        },
        WorldBorderAction::SetCenter { x, z } => {
            proof {
                lemma_u64_bits(*x);
                lemma_u64_bits(*z);
            }
            w.write_varint(2);
            w.write_i64(#[verifier::truncate] (*x as i64));
            w.write_i64(#[verifier::truncate] (*z as i64));
        },
        WorldBorderAction::Initialize {
            x,
            z,
            old_radius,
            new_radius,
            speed,
            portal_teleport_boundary,
            warning_time,
            warning_blocks,
        } => {
            proof {
                lemma_u64_bits(*x);
                lemma_u64_bits(*z);
                lemma_u64_bits(*old_radius);
                lemma_u64_bits(*new_radius);
            }
            w.write_varint(3);
            w.write_i64(#[verifier::truncate] (*x as i64));
            w.write_i64(#[verifier::truncate] (*z as i64));
            w.write_i64(#[verifier::truncate] (*old_radius as i64));
            w.write_i64(#[verifier::truncate] (*new_radius as i64));
            w.write_varlong(*speed);
            w.write_varint(*portal_teleport_boundary);
            w.write_varint(*warning_time);
            w.write_varint(*warning_blocks);
        },
        WorldBorderAction::SetWarningTime { warning_time } => {
            w.write_varint(4);
            w.write_varint(*warning_time);
        },
        WorldBorderAction::SetWarningBlocks { warning_blocks } => {
            w.write_varint(5);
            w.write_varint(*warning_blocks);
        },
    }
    assert(w.data@ =~= old(w).data@ + border_bytes(*action));
}

fn write_slots(w: &mut DataWriter, slots: &Vec<Slot>) -> (ok: bool)
    ensures
        ok <==> slots_bytes(slots@) is Some,
        ok ==> final(w).data@ == old(w).data@ + slots_bytes(slots@)->Some_0,
{
    let mut i: usize = 0;
    assert(slots@.take(0) =~= Seq::<Slot>::empty());
    while i < slots.len()
        invariant
            i <= slots@.len(),
            slots_bytes(slots@.take(i as int)) is Some,
            w.data@ == old(w).data@ + slots_bytes(slots@.take(i as int))->Some_0,
        decreases slots@.len() - i,
    {
        let slot = slots[i];
        assert(slots@.take(i + 1).drop_last() =~= slots@.take(i as int));
        if !slot.present {
            w.write_bool(false);
        } else {
            match (slot.item_id, slot.item_count) {
                (Some(item), Some(count)) => {
                    w.write_bool(true);
                    w.write_varint(item);
                    w.write_i8(count);
                },
                _ => {
                    proof {
                        lemma_slots_prefix_fails(slots@, (i + 1) as nat);
                    }
                    return false;
                },
            }
        }
        i = i + 1;
        assert(w.data@ =~= old(w).data@ + slots_bytes(slots@.take(i as int))->Some_0);
    }
    assert(slots@.take(i as int) =~= slots@);
    true
}

proof fn lemma_slots_prefix_fails(slots: Seq<Slot>, k: nat)
    requires
        k <= slots.len(),
        slots_bytes(slots.take(k as int)) is None,
    ensures
        slots_bytes(slots) is None,
    decreases slots.len() - k,
{
    if k < slots.len() {
        assert(slots.take((k + 1) as int).drop_last() =~= slots.take(k as int));
        lemma_slots_prefix_fails(slots, k + 1);
    } else {
        assert(slots.take(k as int) =~= slots);
    }
}

} // verus!
