use amethyst_net::data_reader::DataReader;
use amethyst_net::framing::{prefix_length, read_packets, read_varint};
use amethyst_net::packet::{
    ConnectionState, Packet, PlayerInfoAction, PlayerInfoPlayer, PlayerInfoProperties, Slot,
    WorldBorderAction,
};
use amethyst_net::position::Position;

#[test]
fn newer_network_manager_test() {
    let vec = vec![
        35, 244, 87, 10, 242, 35, 109, 208, 26, 79, 114, 164, 8, 111, 32, 254, 17, 206, 20, 79,
        76, 129, 72, 142, 154, 152, 67,
    ];
    let mut length_length = 0;
    let length = read_varint(&vec, &mut length_length);
    let id = read_varint(&vec[1..], &mut 0);
    println!("{:?} {:?} {}", length, id, length_length);
    assert_eq!(length, Some(35));
    assert_eq!(length_length, 1);
    assert_eq!(id, Some(244 - 128 + 87 * 128));
    assert!(read_packets(&vec).is_none());
}

fn frame(id: u8, payload: &[u8]) -> Vec<u8> {
    let mut body = vec![id];
    body.extend_from_slice(payload);
    prefix_length(&body)
}

#[test]
fn two_frames_in_one_run() {
    let mut run = frame(0x00, &[1, 2, 3]);
    run.extend(frame(0x05, &[]));
    let packets = read_packets(&run).unwrap();
    assert_eq!(packets.len(), 2);
    assert_eq!(packets[0].id, 0);
    assert_eq!(packets[0].data, &[1, 2, 3]);
    assert_eq!(packets[1].id, 5);
    assert_eq!(packets[1].data, &[] as &[u8]);
    let mut reader = packets[0].get_reader();
    assert_eq!(reader.read_u8(), Ok(1));
}

#[test]
fn empty_run_has_no_frames() {
    assert_eq!(read_packets(&[]).unwrap().len(), 0);
}

#[test]
fn frame_past_the_run_is_a_desync() {
    let mut run = frame(0x00, &[1, 2, 3]);
    run.pop();
    assert!(read_packets(&run).is_none());
    assert!(read_packets(&[0x00]).is_none());
}

#[test]
fn prefix_length_counts_the_body() {
    assert_eq!(prefix_length(&vec![0x00, 0x2a]), vec![2, 0x00, 0x2a]);
    assert_eq!(prefix_length(&vec![0u8; 200])[..2], [0xc8, 0x01]);
}

#[test]
fn play_id_in_login_state_is_no_packet() {
    let payload = [0x2au8];
    let mut r = DataReader::new(&payload);
    assert!(Packet::read(0x02, &mut r, ConnectionState::Login).is_none());
    let mut r = DataReader::new(&payload);
    assert!(Packet::read(0x0f, &mut r, ConnectionState::Login).is_none());
    let mut r = DataReader::new(&payload);
    assert!(matches!(Packet::read(0x00, &mut r, ConnectionState::Play), Some(Packet::KeepAlive { id: 42 })));
    let mut r = DataReader::new(&payload);
    assert!(Packet::read(0x01, &mut r, ConnectionState::Handshaking).is_none());
}

#[test]
fn handshake_decodes() {
    let payload = [47u8, 9, b'l', b'o', b'c', b'a', b'l', b'h', b'o', b's', b't', 0x63, 0xdd, 2];
    let mut r = DataReader::new(&payload);
    match Packet::read(0, &mut r, ConnectionState::Handshaking) {
        Some(Packet::Handshake { protocol_version, server_address, server_port, next_state }) => {
            assert_eq!(protocol_version, 47);
            assert_eq!(server_address, "localhost");
            assert_eq!(server_port, 25565);
            assert_eq!(next_state, 2);
        }
        other => panic!("unexpected {:?}", other),
    }
    let mut r = DataReader::new(&payload[..12]);
    assert!(Packet::read(0, &mut r, ConnectionState::Handshaking).is_none());
}

#[test]
fn status_packets_decode() {
    let mut r = DataReader::new(&[]);
    assert!(matches!(Packet::read(0, &mut r, ConnectionState::Status), Some(Packet::StatusRequest)));
    let ping = 12345i64.to_be_bytes();
    let mut r = DataReader::new(&ping);
    assert!(matches!(Packet::read(1, &mut r, ConnectionState::Status), Some(Packet::Ping { ping: 12345 })));
}

#[test]
fn serialize_outbound_packets() {
    assert_eq!(Packet::KeepAlive { id: 300 }.serialize(), Some(vec![0x00, 0xac, 0x02]));
    assert_eq!(Packet::KeepAlive { id: 0 }.serialize_length(), Some(vec![2, 0x00, 0x00]));
    assert_eq!(Packet::HeldItemChange { slot: 3 }.serialize(), Some(vec![0x09, 3]));
    assert_eq!(
        Packet::Pong { pong: 1 }.serialize(),
        Some(vec![0x01, 0, 0, 0, 0, 0, 0, 0, 1])
    );
    assert_eq!(
        Packet::DisconnectPlay { reason: "{}".to_string() }.serialize(),
        Some(vec![0x40, 2, b'{', b'}'])
    );
    assert_eq!(
        Packet::SpawnPosition { location: Position { x: 0, y: 50, z: 0 } }.serialize(),
        Some([vec![0x05], (50i64 << 26).to_be_bytes().to_vec()].concat())
    );
    assert_eq!(
        Packet::TimeUpdate { world_age: 0, time_of_day: 12000 }.serialize().unwrap().len(),
        17
    );
    let look = Packet::PlayerPositionAndLook {
        x: 0f64.to_bits(),
        y: 51f64.to_bits(),
        z: 0f64.to_bits(),
        yaw: 0f32.to_bits(),
        pitch: 0f32.to_bits(),
        flags: 0,
    };
    let bytes = look.serialize().unwrap();
    assert_eq!(bytes.len(), 1 + 24 + 8 + 1);
    assert_eq!(bytes[9..17], 51f64.to_be_bytes());
}

#[test]
fn join_game_and_window_items() {
    let join = Packet::JoinGame {
        entity_id: 0,
        gamemode: 1,
        dimension: -1,
        difficulty: 0,
        max_players: 255,
        level_type: "flat".to_string(),
        reduced_debug_info: false,
    };
    assert_eq!(
        join.serialize(),
        Some(vec![0x01, 0, 0, 0, 0, 1, 0xff, 0, 255, 4, b'f', b'l', b'a', b't', 0])
    );
    let items = Packet::WindowItems {
        window_id: 0,
        slots: vec![
            Slot { present: false, item_id: None, item_count: None },
            Slot { present: true, item_id: Some(1), item_count: Some(64) },
        ],
    };
    assert_eq!(items.serialize(), Some(vec![0x30, 0, 0, 2, 0, 1, 1, 64]));
    let broken = Packet::WindowItems {
        window_id: 0,
        slots: vec![Slot { present: true, item_id: None, item_count: Some(1) }],
    };
    assert!(broken.serialize().is_none());
}

#[test]
fn inbound_only_packets_do_not_serialize() {
    assert!(Packet::StatusRequest.serialize().is_none());
    assert!(Packet::LoginStart { nickname: "Alice".to_string() }.serialize_length().is_none());
}

#[test]
fn login_success_carries_hyphenated_uuid() {
    let uuid = [
        0x12u8, 0x34, 0x56, 0x78, 0x9a, 0xbc, 0xde, 0xf0, 0x01, 0x23, 0x45, 0x67, 0x89, 0xab,
        0xcd, 0xef,
    ];
    let bytes = Packet::LoginSuccess { uuid, nickname: "Alice".to_string() }.serialize().unwrap();
    let mut r = DataReader::new(&bytes[1..]);
    assert_eq!(bytes[0], 0x02);
    assert_eq!(r.read_string().unwrap(), "12345678-9abc-def0-0123-456789abcdef");
    assert_eq!(r.read_string().unwrap(), "Alice");
}

#[test]
fn player_info_and_world_border() {
    let info = Packet::PlayerInfo {
        action_id: 0,
        players: vec![PlayerInfoPlayer {
            uuid: [1; 16],
            action: PlayerInfoAction::AddPlayer {
                name: "Al".to_string(),
                properties: vec![PlayerInfoProperties {
                    name: "k".to_string(),
                    value: "v".to_string(),
                    signature: None,
                }],
                gamemode: 1,
                ping: 2,
                display_name: Some("{}".to_string()),
            },
        }],
    };
    let mut expected = vec![0x38, 0, 1];
    expected.extend([1u8; 16]);
    expected.extend([2, b'A', b'l', 1, 1, b'k', 1, b'v', 0, 1, 2, 1, 2, b'{', b'}']);
    assert_eq!(info.serialize(), Some(expected));
    let remove = Packet::PlayerInfo {
        action_id: 4,
        players: vec![PlayerInfoPlayer { uuid: [0; 16], action: PlayerInfoAction::RemovePlayer }],
    };
    assert_eq!(remove.serialize().unwrap().len(), 3 + 16);
    let border = Packet::WorldBorder { action: WorldBorderAction::SetSize { radius: 100f64.to_bits() } };
    let mut expected = vec![0x44, 0];
    expected.extend(100f64.to_be_bytes());
    assert_eq!(border.serialize(), Some(expected));
    let warn = Packet::WorldBorder { action: WorldBorderAction::SetWarningBlocks { warning_blocks: 300 } };
    assert_eq!(warn.serialize(), Some(vec![0x44, 5, 0xac, 0x02]));
}

#[test]
fn three_frames_in_order_and_reader_kept_on_no_packet() {
    let mut run = frame(0x01, &[9]);
    run.extend(frame(0x02, &[]));
    run.extend(frame(0x03, &[7, 7]));
    let packets = read_packets(&run).unwrap();
    assert_eq!(packets.iter().map(|p| p.id).collect::<Vec<_>>(), vec![1, 2, 3]);
    assert_eq!(packets[2].data, &[7, 7]);
    let payload = [0x05u8, b'A'];
    let mut r = DataReader::new(&payload);
    assert!(Packet::read(0x00, &mut r, ConnectionState::Login).is_none());
    assert_eq!(r.cursor, 0);
    let mut r = DataReader::new(&payload);
    assert!(Packet::read(0x07, &mut r, ConnectionState::Login).is_none());
    assert_eq!(r.cursor, 0);
}
