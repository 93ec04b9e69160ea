use wireguard_udp_proxy::packet::WgPacket;
use wireguard_udp_proxy::packet::WgPacket::{Cookie, Data, HandShakeInitiation, HandShakeResponse};

#[test]
fn test_wg_parse() {
    let sender: u32 = 3927566598;
    let sender_bytes = sender.to_le_bytes();
    let receiver: u32 = 350987235;
    let receiver_bytes = receiver.to_le_bytes();

    let packet = [
        1,
        0,
        0,
        0,
        sender_bytes[0],
        sender_bytes[1],
        sender_bytes[2],
        sender_bytes[3],
        0,
        0,
    ];
    assert_eq!(
        WgPacket::parse(&packet),
        Some(HandShakeInitiation { sender })
    );

    let packet = [
        2,
        0,
        0,
        0,
        sender_bytes[0],
        sender_bytes[1],
        sender_bytes[2],
        sender_bytes[3],
        receiver_bytes[0],
        receiver_bytes[1],
        receiver_bytes[2],
        receiver_bytes[3],
        0,
        0,
    ];
    assert_eq!(
        WgPacket::parse(&packet),
        Some(HandShakeResponse { sender, receiver })
    );

    let packet = [
        3,
        0,
        0,
        0,
        receiver_bytes[0],
        receiver_bytes[1],
        receiver_bytes[2],
        receiver_bytes[3],
        0,
        0,
    ];
    assert_eq!(WgPacket::parse(&packet), Some(Cookie { receiver }));

    let packet = [
        4,
        0,
        0,
        0,
        receiver_bytes[0],
        receiver_bytes[1],
        receiver_bytes[2],
        receiver_bytes[3],
        0,
        0,
    ];
    assert_eq!(WgPacket::parse(&packet), Some(Data { receiver }));
}

#[test]
fn test_parse_short_inputs() {
    // every length below the 10-byte minimum is unparseable, whatever the type byte
    for len in 0..10usize {
        let bytes = vec![1u8; len];
        assert_eq!(WgPacket::parse(&bytes), None);
    }
}

#[test]
fn test_parse_unknown_type() {
    for ty in [0u8, 5, 6, 100, 255] {
        let packet = [ty, 0, 0, 0, 1, 2, 3, 4, 0, 0];
        assert_eq!(WgPacket::parse(&packet), None);
    }
}

#[test]
fn test_parse_short_response() {
    // a handshake response needs 12 bytes; 10 or 11 are unparseable even
    // though they meet the general minimum
    let packet10 = [2u8, 0, 0, 0, 1, 2, 3, 4, 5, 6];
    assert_eq!(WgPacket::parse(&packet10), None);
    let packet11 = [2u8, 0, 0, 0, 1, 2, 3, 4, 5, 6, 7];
    assert_eq!(WgPacket::parse(&packet11), None);
    let packet12 = [2u8, 0, 0, 0, 1, 2, 3, 4, 5, 6, 7, 8];
    assert_eq!(
        WgPacket::parse(&packet12),
        Some(HandShakeResponse {
            sender: 0x04030201,
            receiver: 0x08070605,
        })
    );
}

#[test]
fn test_parse_little_endian_exact() {
    // byte 4 is the least significant byte of the sender index
    let packet = [1u8, 0, 0, 0, 0x01, 0x02, 0x03, 0x04, 0, 0];
    assert_eq!(
        WgPacket::parse(&packet),
        Some(HandShakeInitiation { sender: 67305985 })
    );
    // trailing payload bytes beyond the header do not change the result
    let packet = [3u8, 9, 9, 9, 0xff, 0, 0, 0, 9, 9, 9, 9, 9, 9];
    assert_eq!(WgPacket::parse(&packet), Some(Cookie { receiver: 255 }));
}

#[test]
fn test_receiver_field() {
    assert_eq!(HandShakeInitiation { sender: 5 }.receiver(), None);
    assert_eq!(
        HandShakeResponse {
            sender: 5,
            receiver: 8
        }
        .receiver(),
        Some(&8)
    );
    assert_eq!(Cookie { receiver: 11 }.receiver(), Some(&11));
    assert_eq!(Data { receiver: 12 }.receiver(), Some(&12));
}
