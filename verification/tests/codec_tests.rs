use pool_graph::address::Address;
use pool_graph::event::{decode_sync_event, encode_reserves, DecodeError, RESERVE_LIMIT};
use pool_graph::store::GraphOp;
use pool_graph::text::{decimal_string_of, hex_string_of_bytes};

fn addr(byte: u8) -> Address {
    Address::new(vec![byte; 20])
}

#[test]
fn round_trip_plain_values() {
    let payload = encode_reserves(1000, 2000);
    let event = decode_sync_event(addr(0xaa), &payload).unwrap();
    assert_eq!(event.reserve0, 1000);
    assert_eq!(event.reserve1, 2000);
    assert_eq!(event.address.as_bytes(), &vec![0xaa; 20]);
}

#[test]
fn round_trip_extremes() {
    let payload = encode_reserves(0, RESERVE_LIMIT - 1);
    let event = decode_sync_event(addr(1), &payload).unwrap();
    assert_eq!(event.reserve0, 0);
    assert_eq!(event.reserve1, RESERVE_LIMIT - 1);

    let payload = encode_reserves(RESERVE_LIMIT - 1, 0);
    let event = decode_sync_event(addr(1), &payload).unwrap();
    assert_eq!(event.reserve0, RESERVE_LIMIT - 1);
    assert_eq!(event.reserve1, 0);
}

#[test]
fn encoding_layout_is_exact() {
    let payload = encode_reserves(1, 2);
    let mut expected = vec![0u8; 64];
    expected[31] = 1;
    expected[63] = 2;
    assert_eq!(payload, expected);

    let payload = encode_reserves(0x0102, 0x0304);
    let mut expected = vec![0u8; 64];
    expected[30] = 0x01;
    expected[31] = 0x02;
    expected[62] = 0x03;
    expected[63] = 0x04;
    assert_eq!(payload, expected);
}

#[test]
fn wrong_length_is_rejected() {
    assert_eq!(
        decode_sync_event(addr(3), &vec![]).unwrap_err(),
        DecodeError::WrongLength
    );
    assert_eq!(
        decode_sync_event(addr(3), &vec![0u8; 63]).unwrap_err(),
        DecodeError::WrongLength
    );
    assert_eq!(
        decode_sync_event(addr(3), &vec![0u8; 65]).unwrap_err(),
        DecodeError::WrongLength
    );
}

#[test]
fn nonzero_padding_is_rejected() {
    let mut payload = vec![0u8; 64];
    payload[0] = 1;
    assert_eq!(
        decode_sync_event(addr(3), &payload).unwrap_err(),
        DecodeError::NonZeroPadding
    );

    let mut payload = vec![0u8; 64];
    payload[49] = 0xff;
    assert_eq!(
        decode_sync_event(addr(3), &payload).unwrap_err(),
        DecodeError::NonZeroPadding
    );
}

#[test]
fn hex_rendering_is_exact() {
    let s = hex_string_of_bytes(&vec![0xaa; 20]);
    assert_eq!(s, "0xaaaaaaaaaaaaaaaaaaaaaaaaaaaaaaaaaaaaaaaa");

    let s = hex_string_of_bytes(&vec![0x00, 0x1f, 0xde, 0xad]);
    assert_eq!(s, "0x001fdead");

    let s = hex_string_of_bytes(&vec![]);
    assert_eq!(s, "0x");
}

#[test]
fn decimal_rendering_is_exact() {
    assert_eq!(decimal_string_of(0), "0");
    assert_eq!(decimal_string_of(7), "7");
    assert_eq!(decimal_string_of(1000), "1000");
    assert_eq!(decimal_string_of(1234567890123), "1234567890123");
    assert_eq!(
        decimal_string_of(RESERVE_LIMIT - 1),
        "5192296858534827628530496329220095"
    );
}

#[test]
fn set_reserves_statement_is_parameterized() {
    let op = GraphOp::SetReserves {
        pool: addr(0xab),
        reserve0: 1000,
        reserve1: 2000,
    };
    let stmt = op.to_statement();
    assert_eq!(
        stmt.text,
        "MATCH ()-[r:UNISWAPV2_POOL]->() WHERE r.pool_address = $pool SET r.cost = CASE r.token WHEN '0' THEN $cost0 ELSE $cost1 END RETURN r"
    );
    assert_eq!(stmt.params.len(), 3);
    assert_eq!(stmt.params[0].0, "pool");
    assert_eq!(stmt.params[0].1, "0xabababababababababababababababababababab");
    assert_eq!(stmt.params[1].0, "cost0");
    assert_eq!(stmt.params[1].1, "1000");
    assert_eq!(stmt.params[2].0, "cost1");
    assert_eq!(stmt.params[2].1, "2000");
}

#[test]
fn creation_statements_are_parameterized() {
    let op = GraphOp::CreateToken {
        address: addr(0x01),
        symbol: String::from("USDC"),
    };
    let stmt = op.to_statement();
    assert_eq!(stmt.text, "CREATE (t:Token {address: $address, name: $name})");
    assert_eq!(stmt.params.len(), 2);
    assert_eq!(stmt.params[0].0, "address");
    assert_eq!(stmt.params[0].1, "0x0101010101010101010101010101010101010101");
    assert_eq!(stmt.params[1].0, "name");
    assert_eq!(stmt.params[1].1, "USDC");

    let op = GraphOp::CreatePoolEdges {
        pool: addr(0xab),
        token0: addr(0x01),
        token1: addr(0x02),
    };
    let stmt = op.to_statement();
    assert_eq!(
        stmt.text,
        "MATCH (n:Token {address: $token0}), (m:Token {address: $token1}) CREATE (n)-[:UNISWAPV2_POOL {cost: $cost0, token: '0', pool_address: $pool}]->(m) CREATE (m)-[:UNISWAPV2_POOL {cost: $cost1, token: '1', pool_address: $pool}]->(n)"
    );
    assert_eq!(stmt.params.len(), 5);
    assert_eq!(stmt.params[0].0, "token0");
    assert_eq!(stmt.params[0].1, "0x0101010101010101010101010101010101010101");
    assert_eq!(stmt.params[1].0, "token1");
    assert_eq!(stmt.params[1].1, "0x0202020202020202020202020202020202020202");
    assert_eq!(stmt.params[2].0, "pool");
    assert_eq!(stmt.params[2].1, "0xabababababababababababababababababababab");
    assert_eq!(stmt.params[3].0, "cost0");
    assert_eq!(stmt.params[3].1, "0");
    assert_eq!(stmt.params[4].0, "cost1");
    assert_eq!(stmt.params[4].1, "0");
}
