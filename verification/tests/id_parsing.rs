use pagegraph::ids::{EdgeId, FrameId, GraphItemId, NodeId, ParseIdError};

#[test]
fn test_frame_id_parsing() {
    assert_eq!(FrameId::try_from("00000000000000000000000000000000"), Ok(FrameId(0)));
    assert_eq!(FrameId::try_from("00000000000000000000000000000001"), Ok(FrameId(1)));
    assert_eq!(FrameId::try_from("0000000000000000000000000000000f"), Ok(FrameId(15)));
    assert_eq!(FrameId::try_from("FfFFFFFfFffFFFfFFFFfffFFFfFFFfff"), Ok(FrameId(u128::MAX)));

    assert_eq!(FrameId::try_from(" 00000000000000000000000000000000"), Err(ParseIdError::FrameIdLength));
    assert_eq!(FrameId::try_from(" 0000000000000000000000000000000"), Err(ParseIdError::ParseIntError));
    assert_eq!(FrameId::try_from("0000000000000000000000000000000"), Err(ParseIdError::FrameIdLength));
    assert_eq!(FrameId::try_from("000000000000000000000000000000000"), Err(ParseIdError::FrameIdLength));
}

#[test]
fn test_graph_item_id_parsing() {
    assert_eq!(GraphItemId::try_from("0"), Ok(GraphItemId{ id: 0, frame_id: None }));
    assert_eq!(GraphItemId::try_from("8"), Ok(GraphItemId{ id: 8, frame_id: None }));
    assert_eq!(GraphItemId::try_from("200"), Ok(GraphItemId{ id: 200, frame_id: None }));
    assert_eq!(GraphItemId::try_from("103810150"), Ok(GraphItemId{ id: 103810150, frame_id: None }));
    assert_eq!(GraphItemId::try_from("0:00000000000000000000000000000000"), Ok(GraphItemId{ id: 0, frame_id: Some(FrameId(0)) }));
    assert_eq!(GraphItemId::try_from("8:00000000000000000000000000000001"), Ok(GraphItemId{ id: 8, frame_id: Some(FrameId(1)) }));
    assert_eq!(GraphItemId::try_from("200:0000000000000000000000000000000f"), Ok(GraphItemId{ id: 200, frame_id: Some(FrameId(15)) }));
    assert_eq!(GraphItemId::try_from("103810150:FfFFFFFfFffFFFfFFFFfffFFFfFFFfff"), Ok(GraphItemId{ id: 103810150, frame_id: Some(FrameId(u128::MAX)) }));

    assert_eq!(GraphItemId::try_from("38 : 00000000000000000000000000000000"), Err(ParseIdError::ParseIntError));
    assert_eq!(GraphItemId::try_from("f8:00000000000000000000000000000000"), Err(ParseIdError::ParseIntError));
    assert_eq!(GraphItemId::try_from(":00000000000000000000000000000000"), Err(ParseIdError::ParseIntError));
    assert_eq!(GraphItemId::try_from("0:0000000000000000000000000000000"), Err(ParseIdError::FrameIdLength));
    assert_eq!(GraphItemId::try_from("0:000000000000000000000000000000000"), Err(ParseIdError::FrameIdLength));
}

#[test]
fn test_edge_id_parsing() {
    assert_eq!(EdgeId::try_from("e0"), Ok(EdgeId(GraphItemId{ id: 0, frame_id: None })));
    assert_eq!(EdgeId::try_from("e8"), Ok(EdgeId(GraphItemId{ id: 8, frame_id: None })));
    assert_eq!(EdgeId::try_from("e200"), Ok(EdgeId(GraphItemId{ id: 200, frame_id: None })));
    assert_eq!(EdgeId::try_from("e103810150"), Ok(EdgeId(GraphItemId{ id: 103810150, frame_id: None })));
    assert_eq!(EdgeId::try_from("e0:00000000000000000000000000000000"), Ok(EdgeId(GraphItemId{ id: 0, frame_id: Some(FrameId(0)) })));
    assert_eq!(EdgeId::try_from("e8:00000000000000000000000000000001"), Ok(EdgeId(GraphItemId{ id: 8, frame_id: Some(FrameId(1)) })));
    assert_eq!(EdgeId::try_from("e200:0000000000000000000000000000000f"), Ok(EdgeId(GraphItemId{ id: 200, frame_id: Some(FrameId(15)) })));
    assert_eq!(EdgeId::try_from("e103810150:FfFFFFFfFffFFFfFFFFfffFFFfFFFfff"), Ok(EdgeId(GraphItemId{ id: 103810150, frame_id: Some(FrameId(u128::MAX)) })));

    assert_eq!(EdgeId::try_from("n0"), Err(ParseIdError::MissingPrefix));
    assert_eq!(EdgeId::try_from("8"), Err(ParseIdError::MissingPrefix));
    assert_eq!(EdgeId::try_from("e 200"), Err(ParseIdError::ParseIntError));
    assert_eq!(EdgeId::try_from("e103810150:"), Err(ParseIdError::FrameIdLength));
    assert_eq!(EdgeId::try_from("n0:00000000000000000000000000000000"), Err(ParseIdError::MissingPrefix));
    assert_eq!(EdgeId::try_from("0:00000000000000000000000000000000"), Err(ParseIdError::MissingPrefix));
    assert_eq!(EdgeId::try_from("0e:00000000000000000000000000000000"), Err(ParseIdError::MissingPrefix));
    assert_eq!(EdgeId::try_from("e:00000000000000000000000000000000"), Err(ParseIdError::ParseIntError));
    assert_eq!(EdgeId::try_from(":00000000000000000000000000000000"), Err(ParseIdError::MissingPrefix));
    assert_eq!(EdgeId::try_from("e38 : 00000000000000000000000000000000"), Err(ParseIdError::ParseIntError));
    assert_eq!(EdgeId::try_from("ef8:00000000000000000000000000000000"), Err(ParseIdError::ParseIntError));
    assert_eq!(EdgeId::try_from("e:00000000000000000000000000000000"), Err(ParseIdError::ParseIntError));
    assert_eq!(EdgeId::try_from("e0:0000000000000000000000000000000"), Err(ParseIdError::FrameIdLength));
    assert_eq!(EdgeId::try_from("e0:000000000000000000000000000000000"), Err(ParseIdError::FrameIdLength));
}

#[test]
fn test_node_id_parsing() {
    assert_eq!(NodeId::try_from("n0"), Ok(NodeId(GraphItemId{ id: 0, frame_id: None })));
    assert_eq!(NodeId::try_from("n8"), Ok(NodeId(GraphItemId{ id: 8, frame_id: None })));
    assert_eq!(NodeId::try_from("n200"), Ok(NodeId(GraphItemId{ id: 200, frame_id: None })));
    assert_eq!(NodeId::try_from("n103810150"), Ok(NodeId(GraphItemId{ id: 103810150, frame_id: None })));
    assert_eq!(NodeId::try_from("n0:00000000000000000000000000000000"), Ok(NodeId(GraphItemId{ id: 0, frame_id: Some(FrameId(0)) })));
    assert_eq!(NodeId::try_from("n8:00000000000000000000000000000001"), Ok(NodeId(GraphItemId{ id: 8, frame_id: Some(FrameId(1)) })));
    assert_eq!(NodeId::try_from("n200:0000000000000000000000000000000f"), Ok(NodeId(GraphItemId{ id: 200, frame_id: Some(FrameId(15)) })));
    assert_eq!(NodeId::try_from("n103810150:FfFFFFFfFffFFFfFFFFfffFFFfFFFfff"), Ok(NodeId(GraphItemId{ id: 103810150, frame_id: Some(FrameId(u128::MAX)) })));

    assert_eq!(NodeId::try_from("e0"), Err(ParseIdError::MissingPrefix));
    assert_eq!(NodeId::try_from("8"), Err(ParseIdError::MissingPrefix));
    assert_eq!(NodeId::try_from("n 200"), Err(ParseIdError::ParseIntError));
    assert_eq!(NodeId::try_from("n103810150:"), Err(ParseIdError::FrameIdLength));
    assert_eq!(NodeId::try_from("e0:00000000000000000000000000000000"), Err(ParseIdError::MissingPrefix));
    assert_eq!(NodeId::try_from("0:00000000000000000000000000000000"), Err(ParseIdError::MissingPrefix));
    assert_eq!(NodeId::try_from("0n:00000000000000000000000000000000"), Err(ParseIdError::MissingPrefix));
    assert_eq!(NodeId::try_from("n:00000000000000000000000000000000"), Err(ParseIdError::ParseIntError));
    assert_eq!(NodeId::try_from(":00000000000000000000000000000000"), Err(ParseIdError::MissingPrefix));
    assert_eq!(NodeId::try_from("n38 : 00000000000000000000000000000000"), Err(ParseIdError::ParseIntError));
    assert_eq!(NodeId::try_from("nf8:00000000000000000000000000000000"), Err(ParseIdError::ParseIntError));
    assert_eq!(NodeId::try_from("n:00000000000000000000000000000000"), Err(ParseIdError::ParseIntError));
    assert_eq!(NodeId::try_from("n0:0000000000000000000000000000000"), Err(ParseIdError::FrameIdLength));
    assert_eq!(NodeId::try_from("n0:000000000000000000000000000000000"), Err(ParseIdError::FrameIdLength));
}

fn test_str(id_str: &str) {
    assert_eq!(NodeId::try_from(id_str).unwrap().to_string(), id_str);

    let node_id = NodeId::try_from(id_str).unwrap();

    assert_eq!(NodeId::try_from(node_id.to_string().as_str()).unwrap(), node_id);
}

#[test]
fn test_round_trip() {
    test_str("n0");
    test_str("n8");
    test_str("n200");
    test_str("n103810150");
    test_str("n0:00000000000000000000000000000000");
    test_str("n8:00000000000000000000000000000001");
    test_str("n200:0000000000000000000000000000000F");
    test_str("n103810150:FFFFFFFFFFFFFFFFFFFFFFFFFFFFFFFF");
    test_str("n99999:0123456789ABCDEF0123456789ABCDEF");
}

#[test]
fn identifiers_are_ordered_by_number_then_frame() {
    let plain = |id: usize| NodeId(GraphItemId { id, frame_id: None });
    let framed = |id: usize, frame: u128| NodeId(GraphItemId { id, frame_id: Some(FrameId(frame)) });
    assert!(plain(1) < plain(2));
    assert!(plain(1) < framed(1, 0));
    assert!(framed(1, 9) < plain(2));
    assert!(framed(1, 3) < framed(1, 4));
    assert!(framed(2, 3) > framed(1, 4));
    assert_eq!(plain(7), NodeId::from(7));
    assert_eq!(framed(7, 5), NodeId::from(7).copy_for_frame_id(&FrameId(5)));
    assert_eq!(
        EdgeId::from(7).copy_for_frame_id(&FrameId(5)),
        EdgeId(GraphItemId { id: 7, frame_id: Some(FrameId(5)) })
    );
    assert_eq!(GraphItemId::from(3), GraphItemId { id: 3, frame_id: None });
    assert_eq!(
        GraphItemId::from(3).copy_for_frame_id(&FrameId(1)),
        GraphItemId { id: 3, frame_id: Some(FrameId(1)) }
    );
}

#[test]
fn identifiers_are_written_in_one_way() {
    assert_eq!(FrameId(0).to_string(), "00000000000000000000000000000000");
    assert_eq!(FrameId(0xabc).to_string(), "00000000000000000000000000000ABC");
    assert_eq!(FrameId(u128::MAX).to_string(), "FFFFFFFFFFFFFFFFFFFFFFFFFFFFFFFF");
    assert_eq!(EdgeId::from(0).to_string(), "e0");
    assert_eq!(EdgeId::from(usize::MAX).to_string(), "e18446744073709551615");
    assert_eq!(
        EdgeId::from(12).copy_for_frame_id(&FrameId(255)).to_string(),
        "e12:000000000000000000000000000000FF"
    );
    assert_eq!(NodeId::try_from("n007"), Ok(NodeId::from(7)));
    assert_eq!(NodeId::try_from("n+7"), Ok(NodeId::from(7)));
    assert_eq!(NodeId::try_from("n18446744073709551616"), Err(ParseIdError::ParseIntError));
    assert_eq!(NodeId::try_from("n"), Err(ParseIdError::ParseIntError));
    assert_eq!(NodeId::try_from(""), Err(ParseIdError::MissingPrefix));
    assert_eq!(
        NodeId::try_from("n1:0000000000000000000000000000000g"),
        Err(ParseIdError::ParseIntError)
    );
    assert_eq!(
        NodeId::try_from("n1:+000000000000000000000000000000f"),
        Ok(NodeId::from(1).copy_for_frame_id(&FrameId(15)))
    );
    assert_eq!(
        NodeId::try_from("n1:0000000000000000000000000000000\u{e9}"),
        Err(ParseIdError::FrameIdLength)
    );
    assert_eq!(
        NodeId::try_from("n1:000000000000000000000000000000\u{e9}"),
        Err(ParseIdError::ParseIntError)
    );
    assert_eq!(
        NodeId::try_from("n1:2:00000000000000000000000000000000"),
        Err(ParseIdError::FrameIdLength)
    );
}
