//! The host's side of the protocol.

use delta_patcher::flash_host::{
    extract_variable_header, Abort, DeltaParts, DeltaSession, DeltaStage, FullSession, FullStage,
    Reply, VariableHeader,
};
use delta_patcher::protocol::{
    delta_update_cost, frag_count_and_last, full_update_cost, Fragmenter, WireCost, SUCCESS_COST,
};

fn framed(reply: Reply) -> Vec<u8> {
    match reply {
        Reply::Framed(bytes) => bytes,
        _ => panic!("not framed"),
    }
}

fn raw(reply: Reply) -> Vec<u8> {
    match reply {
        Reply::Raw(bytes) => bytes,
        _ => panic!("not raw"),
    }
}

fn abort(reply: Reply) -> Abort {
    match reply {
        Reply::Abort(why) => why,
        _ => panic!("not given up"),
    }
}

fn full() -> FullSession {
    let variable: Vec<u8> = (0..70).collect();
    FullSession::new(&[1, 2], &[3, 4, 5], variable, &[10, 11], Some(&[12]), 0x0403_0201)
}

fn delta(patch_len: usize) -> DeltaSession {
    DeltaSession::new(DeltaParts {
        fixed_header: vec![1; 60],
        delta_header: vec![2; 32],
        patch: (0..patch_len).map(|i| i as u8).collect(),
        trailer: vec![9, 8, 7, 6],
    })
}

#[test]
fn fragment_counts() {
    assert_eq!(frag_count_and_last(0), (0, 0));
    assert_eq!(frag_count_and_last(1), (1, 1));
    assert_eq!(frag_count_and_last(64), (1, 64));
    assert_eq!(frag_count_and_last(65), (2, 1));
    assert_eq!(frag_count_and_last(1833), (29, 41));
}

#[test]
fn fragments_make_up_the_data() {
    for len in [0usize, 1, 63, 64, 65, 128, 200] {
        let data: Vec<u8> = (0..len).map(|i| i as u8).collect();
        let mut fragmenter = Fragmenter::new(data.clone());
        let total = fragmenter.get_total_fragments();
        let mut joined = Vec::new();
        let mut count = 0;
        loop {
            let number = fragmenter.get_next_fragment_number();
            match fragmenter.get_next_fragment() {
                Some(fragment) => {
                    count += 1;
                    assert_eq!(number, Some(count));
                    assert!(!fragment.is_empty() && fragment.len() <= 64);
                    joined.extend_from_slice(&fragment);
                }
                None => break,
            }
        }
        assert_eq!(count, total);
        assert_eq!(joined, data);
        assert!(fragmenter.is_exhausted());
    }
}

#[test]
fn cost_of_a_delta_update() {
    // 1833 bytes of patch: 29 fragments, 34 requests with the success report.
    let cost = delta_update_cost(60, 32, 1833);
    assert_eq!(cost, WireCost { requests: 33, to_host: 336, to_device: 2259 });
    assert_eq!(cost.to_host + SUCCESS_COST, 346);
    assert_eq!(cost.to_host + SUCCESS_COST + cost.to_device, 2605);
}

#[test]
fn cost_of_a_full_update() {
    // Two fragments of variable header (64 + 6), one of payload.
    let cost = full_update_cost(60, 70, 3);
    assert_eq!(cost.requests, 8);
    assert_eq!(cost.to_host, 16 + 70);
    assert_eq!(cost.to_device, 11 + 70 + (74 + 16) + 13 + 13);
}

#[test]
fn variable_header_in_order() {
    let header = VariableHeader {
        regions: vec![vec![1, 2], vec![3]],
        interrupts: vec![vec![4]],
        relocations: vec![],
        dependencies: vec![vec![5, 6]],
        padding_bytes: 3,
    };
    assert_eq!(extract_variable_header(&header), vec![1, 2, 3, 4, 5, 6, 0xFF, 0xFF, 0xFF]);
}

#[test]
fn full_update_from_start_to_end() {
    let mut session = full();
    assert_eq!(framed(session.answer(0x01)), vec![1, 2, 3, 4, 5]);
    assert!(matches!(session.answer(0x02), Reply::Wait));
    assert_eq!(session.fragment_progress(), (Some(1), 2));
    assert_eq!(framed(session.answer(0xA0)), (0..64).collect::<Vec<u8>>());
    assert_eq!(framed(session.answer(0xA0)), (64..70).collect::<Vec<u8>>());
    assert!(matches!(session.answer(0x03), Reply::Wait));
    assert_eq!(session.stage(), FullStage::PayloadFragments);
    assert_eq!(framed(session.answer(0xA0)), vec![10, 11, 12]);
    assert_eq!(raw(session.answer(0x04)), vec![1, 2, 3, 4]);
    assert!(matches!(session.answer(0xFF), Reply::Success));
    assert_eq!(session.stage(), FullStage::Closed);
}

#[test]
fn full_update_is_given_up() {
    assert_eq!(abort(full().answer(0x02)), Abort::Unexpected(0x02));

    let mut session = full();
    session.answer(0x01);
    assert_eq!(abort(session.answer(0xA0)), Abort::Unexpected(0xA0));

    let mut session = full();
    session.answer(0x01);
    session.answer(0x02);
    session.answer(0xA0);
    assert_eq!(abort(session.answer(0x03)), Abort::HeaderLeft);

    let mut session = full();
    session.answer(0x01);
    session.answer(0x02);
    session.answer(0xA0);
    session.answer(0xA0);
    assert_eq!(abort(session.answer(0xA0)), Abort::NoMoreFragments);

    let mut session = full();
    session.answer(0x01);
    session.answer(0x02);
    session.answer(0xA0);
    session.answer(0xA0);
    session.answer(0x03);
    assert_eq!(abort(session.answer(0x04)), Abort::PayloadLeft);

    let mut session = full();
    session.answer(0x01);
    session.answer(0x02);
    session.answer(0xA0);
    session.answer(0xA0);
    session.answer(0x03);
    session.answer(0xA0);
    session.answer(0x04);
    assert_eq!(abort(session.answer(0x21)), Abort::Unexpected(0x21));
}

#[test]
fn delta_update_from_start_to_end() {
    let mut session = delta(130);
    assert_eq!(framed(session.answer(0x01)), vec![1; 60]);
    assert_eq!(framed(session.answer(0xB0)), vec![2; 32]);
    let mut patch = Vec::new();
    for k in 1..=3 {
        assert_eq!(session.fragment_progress(), (Some(k), 3));
        patch.extend_from_slice(&framed(session.answer(0xA0)));
    }
    assert_eq!(patch, (0..130).map(|i| i as u8).collect::<Vec<u8>>());
    assert_eq!(raw(session.answer(0x04)), vec![9, 8, 7, 6]);
    assert!(matches!(session.answer(0xFF), Reply::Success));
    assert_eq!(session.stage(), DeltaStage::Closed);
}

#[test]
fn delta_update_without_the_trailer() {
    let mut session = delta(65);
    assert_eq!(framed(session.answer(0x01)), vec![1; 60]);
    assert_eq!(framed(session.answer(0xB0)), vec![2; 32]);
    assert_eq!(framed(session.answer(0xA0)).len(), 64);
    assert_eq!(framed(session.answer(0xA0)), vec![64]);
    assert!(matches!(session.answer(0xFF), Reply::Success));
    assert_eq!(session.stage(), DeltaStage::Closed);
}

#[test]
fn delta_update_is_given_up() {
    assert_eq!(abort(delta(1).answer(0xB0)), Abort::Unexpected(0xB0));

    let mut session = delta(1);
    session.answer(0x01);
    assert_eq!(abort(session.answer(0x02)), Abort::Unexpected(0x02));

    let mut session = delta(1);
    session.answer(0x01);
    session.answer(0xB0);
    session.answer(0xA0);
    assert_eq!(abort(session.answer(0xA0)), Abort::NoMoreFragments);

    let mut session = delta(1);
    session.answer(0x01);
    session.answer(0xB0);
    assert_eq!(abort(session.answer(0x33)), Abort::Unexpected(0x33));
}
