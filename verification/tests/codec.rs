//! Wire-format tests: each command kind encodes to its exact JSON object,
//! and decoding what was encoded gives the command back.

use bytes::Bytes;
use paxos_core::codec::{decode, encode};
use paxos_core::commands::Command;
use paxos_core::Ballot;

fn encoded(cmd: &Command) -> Vec<u8> {
    encode(cmd)
}

#[test]
fn it_serializes_command_proposal() {
    let json = r#"{"messageName":"Proposal","payload":[]}"#;

    let command = Command::Proposal { payload: "".into() };
    assert_eq!(encoded(&command), json.as_bytes().to_vec());
}

#[test]
fn it_serializes_command_prepare() {
    let json = r#"{"messageName":"Prepare","payload":[123,345]}"#;
    let ballot = Ballot(123_u32, 345_u32);

    let command = Command::Prepare { payload: ballot };
    assert_eq!(encoded(&command), json.as_bytes().to_vec());
}

#[test]
fn it_serializes_command_promise() {
    let json = r#"{"messageName":"Promise","payload":[42,[123,345],[[0,[123,345],[104,101,108,108,111]]]]}"#;
    let v = vec![(0u64, Ballot(123_u32, 345_u32), Bytes::from("hello"))];
    let payload = (42, Ballot(123_u32, 345_u32), v);

    let command = Command::Promise { payload };
    assert_eq!(encoded(&command), json.as_bytes().to_vec());
}

#[test]
fn it_serializes_command_accept() {
    let json = r#"{"messageName":"Accept","payload":[[123,345],[[0,[104,101,108,108,111]]]]}"#;
    let v = vec![(0u64, Bytes::from("hello"))];
    let payload = (Ballot(123_u32, 345_u32), v);

    let command = Command::Accept { payload };
    assert_eq!(encoded(&command), json.as_bytes().to_vec());
}

#[test]
fn it_serializes_command_reject() {
    let json = r#"{"messageName":"Reject","payload":[13,[123,345],[123,345]]}"#;
    let ballot = Ballot(123_u32, 345_u32);

    let command = Command::Reject { payload: (13, ballot, ballot) };
    assert_eq!(encoded(&command), json.as_bytes().to_vec());
}

#[test]
fn it_serializes_command_accepted() {
    let json = r#"{"messageName":"Accepted","payload":[13,[123,345],[15]]}"#;
    let v = vec![15_u64];
    let ballot = Ballot(123_u32, 345_u32);

    let command = Command::Accepted { payload: (13, ballot, v) };
    assert_eq!(encoded(&command), json.as_bytes().to_vec());
}

#[test]
fn it_serializes_command_resolution() {
    let json = r#"{"messageName":"Resolution","payload":[[123,345],[[15,[]]]]}"#;
    let v = vec![(15_u64, Bytes::from(""))];
    let ballot = Ballot(123_u32, 345_u32);

    let command = Command::Resolution { payload: (ballot, v) };
    assert_eq!(encoded(&command), json.as_bytes().to_vec());
}

#[test]
fn it_serializes_command_catchup() {
    let json = r#"{"messageName":"Catchup","payload":[16,[444]]}"#;
    let v = vec![444_u64];

    let command = Command::Catchup { payload: (16, v) };
    assert_eq!(encoded(&command), json.as_bytes().to_vec());
}

#[test]
fn round_trip_every_command_kind() {
    let commands = vec![
        Command::Proposal { payload: Bytes::from("abc") },
        Command::Proposal { payload: Bytes::from("") },
        Command::Prepare { payload: Ballot(0, 0) },
        Command::Prepare { payload: Ballot(4294967295, 17) },
        Command::Promise {
            payload: (3, Ballot(9, 1), vec![(7, Ballot(8, 0), Bytes::from("x"))]),
        },
        Command::Promise { payload: (3, Ballot(9, 1), vec![]) },
        Command::Accept { payload: (Ballot(2, 2), vec![(0, Bytes::from("v")), (1, Bytes::from(""))]) },
        Command::Reject { payload: (1, Ballot(1, 0), Ballot(2, 1)) },
        Command::Accepted { payload: (0, Ballot(5, 1), vec![4, 5, 6]) },
        Command::Resolution { payload: (Ballot(1, 0), vec![(7, Bytes::from("x"))]) },
        Command::Catchup { payload: (2, vec![]) },
    ];
    for cmd in commands {
        let wire = encode(&cmd);
        let back = decode(&wire).expect("decoding an encoded command succeeds");
        assert_eq!(back, cmd);
    }
}

#[test]
fn decode_rejects_noncanonical_bytes() {
    // a wrong tag
    let bad = br#"{"messageName":"Prepared","payload":[1,2]}"#.to_vec();
    assert!(decode(&bad).is_none());
    // a leading zero is not canonical
    let bad = br#"{"messageName":"Prepare","payload":[01,2]}"#.to_vec();
    assert!(decode(&bad).is_none());
    // trailing garbage
    let bad = br#"{"messageName":"Prepare","payload":[1,2]} "#.to_vec();
    assert!(decode(&bad).is_none());
    // truncation
    let bad = br#"{"messageName":"Prepare","payload":[1,"#.to_vec();
    assert!(decode(&bad).is_none());
}

#[test]
fn encode_writes_multi_digit_numbers() {
    let cmd = Command::Catchup { payload: (4294967295, vec![0, 10, 18446744073709551615]) };
    let json = r#"{"messageName":"Catchup","payload":[4294967295,[0,10,18446744073709551615]]}"#;
    assert_eq!(encode(&cmd), json.as_bytes().to_vec());
}

#[test]
fn encode_separates_list_items_with_commas() {
    let cmd = Command::Promise {
        payload: (
            7,
            Ballot(2, 1),
            vec![
                (0u64, Ballot(1, 0), Bytes::from("ab")),
                (3u64, Ballot(1, 2), Bytes::from("")),
            ],
        ),
    };
    let json = r#"{"messageName":"Promise","payload":[7,[2,1],[[0,[1,0],[97,98]],[3,[1,2],[]]]]}"#;
    assert_eq!(encode(&cmd), json.as_bytes().to_vec());
    assert_eq!(decode(&encode(&cmd)), Some(cmd));
}
