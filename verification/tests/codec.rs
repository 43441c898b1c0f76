use stateright::actor::register::RegisterCfg;
use stateright::actor::register::RegisterMsg;
use stateright::actor::wor::WorCfg;
use stateright::actor::wor::WorMsg;

type Msg = RegisterMsg<char, WorMsg>;

fn server() -> RegisterCfg<usize, char, WorCfg> {
    RegisterCfg::Server(WorCfg)
}

fn round_trips(m: Msg) {
    let cfg = server();
    let bytes = cfg.serialize(&m);
    assert_eq!(cfg.deserialize(&bytes), Some(m));
}

#[test]
fn every_union_variant_round_trips() {
    round_trips(RegisterMsg::Put { value: 'X' });
    round_trips(RegisterMsg::Get);
    round_trips(RegisterMsg::Respond { value: 'y' });
    round_trips(RegisterMsg::Internal(WorMsg::Nop));
    round_trips(RegisterMsg::Put { value: '\u{10FFFF}' });
    round_trips(RegisterMsg::Respond { value: '\0' });
}

#[test]
fn nested_server_payload_decodes_before_the_outer_union() {
    // The server's encoding carries no outer discriminant, so decoding it
    // must yield the Internal wrapping, not a malformed outer parse.
    let cfg = server();
    let inner = cfg.serialize(&RegisterMsg::Internal(WorMsg::Nop));
    assert_eq!(cfg.deserialize(&inner), Some(RegisterMsg::Internal(WorMsg::Nop)));
}

#[test]
fn malformed_datagrams_are_declined() {
    let cfg = server();
    assert_eq!(cfg.deserialize(&Vec::new()), None);
    assert_eq!(cfg.deserialize(&vec![1u8, 2, 3]), None);
    // A Put whose four value bytes name a surrogate code point is no char.
    let mut bad = cfg.serialize(&RegisterMsg::Put { value: 'X' });
    bad[1] = 0x00;
    bad[2] = 0xD8;
    bad[3] = 0x00;
    bad[4] = 0x00;
    assert_eq!(cfg.deserialize(&bad), None);
    // A truncated encoding is declined rather than misread.
    let whole = cfg.serialize(&RegisterMsg::Respond { value: 'q' });
    let truncated: Vec<u8> = whole[..3].to_vec();
    assert_eq!(cfg.deserialize(&truncated), None);
}

#[test]
fn distinct_messages_have_distinct_encodings() {
    let cfg = server();
    let all = vec![
        cfg.serialize(&RegisterMsg::Put { value: 'A' }),
        cfg.serialize(&RegisterMsg::Put { value: 'B' }),
        cfg.serialize(&RegisterMsg::Get),
        cfg.serialize(&RegisterMsg::Respond { value: 'A' }),
        cfg.serialize(&RegisterMsg::Internal(WorMsg::Nop)),
    ];
    for i in 0..all.len() {
        for j in 0..all.len() {
            if i != j {
                assert_ne!(all[i], all[j]);
            }
        }
    }
}
