//! Decoding, surplus and fees of settlements observed on mainnet.
use batch_auction::calldata::DecodingError;
use batch_auction::external_prices::ExternalPrices;
use batch_auction::settlement::{surplus, DecodedSettlement, OrderExecution, OrderKind, OrderUid, TradeFlags, META_DATA_LEN};
use primitive_types::{H160, U256};

fn bytes(text: &str) -> Vec<u8> {
    let digits: String = text.chars().filter(|c| !c.is_whitespace()).collect();
    hex::decode(digits).unwrap()
}

fn addr(text: &str) -> H160 {
    H160::from_slice(&hex::decode(text).unwrap())
}

fn uid(text: &str) -> OrderUid {
    let mut a = [0u8; 56];
    a.copy_from_slice(&hex::decode(text.trim_start_matches("0x")).unwrap());
    OrderUid(a)
}

fn lossy(v: U256) -> f64 {
    v.to_string().parse::<f64>().unwrap()
}

fn u(v: u128) -> U256 {
    U256::from(v)
}

fn mainnet_prices() -> ExternalPrices {
    let prices = vec![
        (addr("0f2d719407fdbeff09d87557abb7232601fd9f29"), u(773763471505852)),
        (addr("a0b86991c6218b36c1d19d4a2e9eb0ce3606eb48"), u(596635491559324261891964928)),
        (addr("dac17f958d2ee523a2206206994597c13d831ec7"), u(596703190526849003475173376)),
        (addr("f4d2888d29d722226fafa5d9b24f9164c092421e"), u(130282568907757)),
    ];
    let native_token = addr("C02aaA39b223FE8D0A0e5C4F27eAD9083C756Cc2");
    ExternalPrices::try_from_auction_prices(native_token, prices).unwrap()
}

const MAINNET_SETTLEMENT: &str = "
        13d79a0b0000000000000000000000000000000000000000000000000000000000000080000000000000000000000000
        000000000000000000000000000000000000012000000000000000000000000000000000000000000000000000000000
        000001c000000000000000000000000000000000000000000000000000000000000005e0000000000000000000000000
        00000000000000000000000000000000000000040000000000000000000000000f2d719407fdbeff09d87557abb72326
        01fd9f29000000000000000000000000a0b86991c6218b36c1d19d4a2e9eb0ce3606eb48000000000000000000000000
        dac17f958d2ee523a2206206994597c13d831ec7000000000000000000000000f4d2888d29d722226fafa5d9b24f9164
        c092421e0000000000000000000000000000000000000000000000000000000000000004000000000000000000000000
        0000000000000000000000000000000dd3fd65500000000000000000000000000000000000000000000009b1d8dff36a
        e30000000000000000000000000000000000000000000000000009a8038306f85f000000000000000000000000000000
        00000000000000000000000000000002540be40000000000000000000000000000000000000000000000000000000000
        000000020000000000000000000000000000000000000000000000000000000000000040000000000000000000000000
        000000000000000000000000000000000000022000000000000000000000000000000000000000000000000000000000
        000000020000000000000000000000000000000000000000000000000000000000000000000000000000000000000000
        e995e2a9ae5210feb6dd07618af28ec38b2d7ce100000000000000000000000000000000000000000000000000000003
        7b64751300000000000000000000000000000000000000000000026c80b0ff052d91ac66000000000000000000000000
        0000000000000000000000000000000063f4d8c4c86d3a0def4d16bd04317645da9ae1d6871726d8adf83a0695447f8e
        e5c63d120000000000000000000000000000000000000000000000000000000002ad60ed000000000000000000000000
        000000000000000000000000000000000000000000000000000000000000000000000000000000000000000000000003
        7b6475130000000000000000000000000000000000000000000000000000000000000160000000000000000000000000
        0000000000000000000000000000000000000041155ff208365bbf30585f5b18fc92d766e46121a1963f903bb6f3f77e
        5d0eaefb27abc4831ce1f837fcb70e11d4e4d97474c677469240849d69e17f7173aead841b0000000000000000000000
        000000000000000000000000000000000000000000000000000000000000000000000000000000000000000000000000
        000000030000000000000000000000000000000000000000000000000000000000000001000000000000000000000000
        f352bffb3e902d78166a79c9878e138a65022e1100000000000000000000000000000000000000000000013519ef4994
        7442f04d0000000000000000000000000000000000000000000000000000000049b4e9b8000000000000000000000000
        0000000000000000000000000000000063f4d8bbc86d3a0def4d16bd04317645da9ae1d6871726d8adf83a0695447f8e
        e5c63d1200000000000000000000000000000000000000000000000575a7d4f1093bc000000000000000000000000000
        000000000000000000000000000000000000000000000000000000000000000000000000000000000000013519ef4994
        7442f04d0000000000000000000000000000000000000000000000000000000000000160000000000000000000000000
        0000000000000000000000000000000000000041882a1c875ff1316bb79bde0d0792869f784d58097d8489a722519e64
        17c577cf5cc745a2e353298dea6514036d5eb95563f8f7640e20ef0fd41b10ccbdfc87641b0000000000000000000000
        000000000000000000000000000000000000000000000000000000000000000000000000000000000000000000000000
        000000600000000000000000000000000000000000000000000000000000000000000080000000000000000000000000
        0000000000000000000000000000000000000a8000000000000000000000000000000000000000000000000000000000
        000000000000000000000000000000000000000000000000000000000000000000000009000000000000000000000000
        000000000000000000000000000000000000012000000000000000000000000000000000000000000000000000000000
        0000020000000000000000000000000000000000000000000000000000000000000002e0000000000000000000000000
        00000000000000000000000000000000000003e000000000000000000000000000000000000000000000000000000000
        000004e000000000000000000000000000000000000000000000000000000000000005c0000000000000000000000000
        000000000000000000000000000000000000072000000000000000000000000000000000000000000000000000000000
        0000080000000000000000000000000000000000000000000000000000000000000008e0000000000000000000000000
        ce0beb5db55754c14cdfa133ec2268d4486f965600000000000000000000000000000000000000000000000000000000
        000000000000000000000000000000000000000000000000000000000000000000000060000000000000000000000000
        000000000000000000000000000000000000004401c6adc3000000000000000000000000a0b86991c6218b36c1d19d4a
        2e9eb0ce3606eb48000000000000000000000000000000000000000000000000000000004a3c09960000000000000000
        0000000000000000000000000000000000000000000000000000000000000000ce0beb5db55754c14cdfa133ec2268d4
        486f96560000000000000000000000000000000000000000000000000000000000000000000000000000000000000000
        000000000000000000000000000000000000006000000000000000000000000000000000000000000000000000000000
        0000004401c6adc3000000000000000000000000c02aaa39b223fe8d0a0e5c4f27ead9083c756cc20000000000000000
        00000000000000000000000000000000405ff0dca143cb52000000000000000000000000000000000000000000000000
        000000000000000000000000000000001d94bedcb3641ba060091ed090d28bbdccdb7f1d000000000000000000000000
        000000000000000000000000000000000000000000000000000000000000000000000000000000000000000000000000
        00000060000000000000000000000000000000000000000000000000000000000000006420cf38cc0000000000000000
        0000000000000000000000000000000000000001abde4cad000000000000000000000000000000000000000000000000
        00000001aaaee8008000000000000000000000003416cf6c708da44db2624d63ea0aaef7113527c60000000000000000
        00000000000000000000000000000000000000000000000000000000000000001d94bedcb3641ba060091ed090d28bbd
        ccdb7f1d0000000000000000000000000000000000000000000000000000000000000000000000000000000000000000
        000000000000000000000000000000000000006000000000000000000000000000000000000000000000000000000000
        0000006420cf38cc00000000000000000000000000000000000000000000013519ef49947442f04d0000000000000000
        000000000000000000000000000000000a34eb03000000008000000000000000000000004b5ab61593a2401b1075b90c
        04cbcdd3f87ce01100000000000000000000000000000000000000000000000000000000000000000000000000000000
        a0b86991c6218b36c1d19d4a2e9eb0ce3606eb4800000000000000000000000000000000000000000000000000000000
        000000000000000000000000000000000000000000000000000000000000000000000060000000000000000000000000
        0000000000000000000000000000000000000044a9059cbb00000000000000000000000005104ebba2b6d3b8254aa41c
        f6df80462f6160ae00000000000000000000000000000000000000000000000000000001abe1cd590000000000000000
        000000000000000000000000000000000000000000000000000000000000000005104ebba2b6d3b8254aa41cf6df8046
        2f6160ae0000000000000000000000000000000000000000000000000000000000000000000000000000000000000000
        000000000000000000000000000000000000006000000000000000000000000000000000000000000000000000000000
        000000c4022c0d9f00000000000000000000000000000000000000000000012b1445dfceb244cadb0000000000000000
        0000000000000000000000000000000000000000000000000000000000000000000000009008d19f58aabd9ed0d60971
        565aa8510560ab4100000000000000000000000000000000000000000000000000000000000000800000000000000000
        000000000000000000000000000000000000000000000000000000000000000000000000000000000000000000000000
        000000000000000000000000000000000000000000000000000000000000000000000000000000000000000000000000
        c02aaa39b223fe8d0a0e5c4f27ead9083c756cc200000000000000000000000000000000000000000000000000000000
        000000000000000000000000000000000000000000000000000000000000000000000060000000000000000000000000
        0000000000000000000000000000000000000044a9059cbb00000000000000000000000005e3734ff2b3127e01070eb2
        25afe910525959ad0000000000000000000000000000000000000000000000000a4f4fa622eb59800000000000000000
        0000000000000000000000000000000000000000000000000000000000000000dac17f958d2ee523a2206206994597c1
        3d831ec70000000000000000000000000000000000000000000000000000000000000000000000000000000000000000
        000000000000000000000000000000000000006000000000000000000000000000000000000000000000000000000000
        00000044a9059cbb00000000000000000000000005e3734ff2b3127e01070eb225afe910525959ad0000000000000000
        0000000000000000000000000000000000000001cf862866000000000000000000000000000000000000000000000000
        000000000000000000000000000000001d94bedcb3641ba060091ed090d28bbdccdb7f1d000000000000000000000000
        000000000000000000000000000000000000000000000000000000000000000000000000000000000000000000000000
        00000060000000000000000000000000000000000000000000000000000000000000006420cf38cc0000000000000000
        00000000000000000000000000000000405ff0dca143cb52000000000000000000000000000000000000000000000142
        8c970000000000008000000000000000000000002dd35b4da6534230ff53048f7477f17f7f4e7a700000000000000000
        000000000000000000000000000000000000000000000000000000000000000000000000000000000000000000000000
        00000000123432
    ";

const MAINNET_SETTLEMENT_FEES: &str = "
        13d79a0b0000000000000000000000000000000000000000000000000000000000000080000000000000000000000000
        000000000000000000000000000000000000012000000000000000000000000000000000000000000000000000000000
        000001c000000000000000000000000000000000000000000000000000000000000005e0000000000000000000000000
        00000000000000000000000000000000000000040000000000000000000000000f2d719407fdbeff09d87557abb72326
        01fd9f29000000000000000000000000a0b86991c6218b36c1d19d4a2e9eb0ce3606eb48000000000000000000000000
        dac17f958d2ee523a2206206994597c13d831ec7000000000000000000000000f4d2888d29d722226fafa5d9b24f9164
        c092421e0000000000000000000000000000000000000000000000000000000000000004000000000000000000000000
        0000000000000000000000000000000dd3fd65500000000000000000000000000000000000000000000009b1d8dff36a
        e30000000000000000000000000000000000000000000000000009a8038306f85f000000000000000000000000000000
        00000000000000000000000000000002540be40000000000000000000000000000000000000000000000000000000000
        000000020000000000000000000000000000000000000000000000000000000000000040000000000000000000000000
        000000000000000000000000000000000000022000000000000000000000000000000000000000000000000000000000
        000000020000000000000000000000000000000000000000000000000000000000000000000000000000000000000000
        e995e2a9ae5210feb6dd07618af28ec38b2d7ce100000000000000000000000000000000000000000000000000000003
        7b64751300000000000000000000000000000000000000000000026c80b0ff052d91ac66000000000000000000000000
        0000000000000000000000000000000063f4d8c4c86d3a0def4d16bd04317645da9ae1d6871726d8adf83a0695447f8e
        e5c63d120000000000000000000000000000000000000000000000000000000002ad60ed000000000000000000000000
        000000000000000000000000000000000000000000000000000000000000000000000000000000000000000000000003
        7b6475130000000000000000000000000000000000000000000000000000000000000160000000000000000000000000
        0000000000000000000000000000000000000041155ff208365bbf30585f5b18fc92d766e46121a1963f903bb6f3f77e
        5d0eaefb27abc4831ce1f837fcb70e11d4e4d97474c677469240849d69e17f7173aead841b0000000000000000000000
        000000000000000000000000000000000000000000000000000000000000000000000000000000000000000000000000
        000000030000000000000000000000000000000000000000000000000000000000000001000000000000000000000000
        f352bffb3e902d78166a79c9878e138a65022e1100000000000000000000000000000000000000000000013519ef4994
        7442f04d0000000000000000000000000000000000000000000000000000000049b4e9b8000000000000000000000000
        0000000000000000000000000000000063f4d8bbc86d3a0def4d16bd04317645da9ae1d6871726d8adf83a0695447f8e
        e5c63d1200000000000000000000000000000000000000000000000575a7d4f1093bc000000000000000000000000000
        000000000000000000000000000000000000000000000000000000000000000000000000000000000000013519ef4994
        7442f04d0000000000000000000000000000000000000000000000000000000000000160000000000000000000000000
        0000000000000000000000000000000000000041882a1c875ff1316bb79bde0d0792869f784d58097d8489a722519e64
        17c577cf5cc745a2e353298dea6514036d5eb95563f8f7640e20ef0fd41b10ccbdfc87641b0000000000000000000000
        000000000000000000000000000000000000000000000000000000000000000000000000000000000000000000000000
        000000600000000000000000000000000000000000000000000000000000000000000080000000000000000000000000
        0000000000000000000000000000000000000a8000000000000000000000000000000000000000000000000000000000
        000000000000000000000000000000000000000000000000000000000000000000000009000000000000000000000000
        000000000000000000000000000000000000012000000000000000000000000000000000000000000000000000000000
        0000020000000000000000000000000000000000000000000000000000000000000002e0000000000000000000000000
        00000000000000000000000000000000000003e000000000000000000000000000000000000000000000000000000000
        000004e000000000000000000000000000000000000000000000000000000000000005c0000000000000000000000000
        000000000000000000000000000000000000072000000000000000000000000000000000000000000000000000000000
        0000080000000000000000000000000000000000000000000000000000000000000008e0000000000000000000000000
        ce0beb5db55754c14cdfa133ec2268d4486f965600000000000000000000000000000000000000000000000000000000
        000000000000000000000000000000000000000000000000000000000000000000000060000000000000000000000000
        000000000000000000000000000000000000004401c6adc3000000000000000000000000a0b86991c6218b36c1d19d4a
        2e9eb0ce3606eb48000000000000000000000000000000000000000000000000000000004a3c09960000000000000000
        0000000000000000000000000000000000000000000000000000000000000000ce0beb5db55754c14cdfa133ec2268d4
        486f96560000000000000000000000000000000000000000000000000000000000000000000000000000000000000000
        000000000000000000000000000000000000006000000000000000000000000000000000000000000000000000000000
        0000004401c6adc3000000000000000000000000c02aaa39b223fe8d0a0e5c4f27ead9083c756cc20000000000000000
        00000000000000000000000000000000405ff0dca143cb52000000000000000000000000000000000000000000000000
        000000000000000000000000000000001d94bedcb3641ba060091ed090d28bbdccdb7f1d000000000000000000000000
        000000000000000000000000000000000000000000000000000000000000000000000000000000000000000000000000
        00000060000000000000000000000000000000000000000000000000000000000000006420cf38cc0000000000000000
        0000000000000000000000000000000000000001abde4cad000000000000000000000000000000000000000000000000
        00000001aaaee8008000000000000000000000003416cf6c708da44db2624d63ea0aaef7113527c60000000000000000
        00000000000000000000000000000000000000000000000000000000000000001d94bedcb3641ba060091ed090d28bbd
        ccdb7f1d0000000000000000000000000000000000000000000000000000000000000000000000000000000000000000
        000000000000000000000000000000000000006000000000000000000000000000000000000000000000000000000000
        0000006420cf38cc00000000000000000000000000000000000000000000013519ef49947442f04d0000000000000000
        000000000000000000000000000000000a34eb03000000008000000000000000000000004b5ab61593a2401b1075b90c
        04cbcdd3f87ce01100000000000000000000000000000000000000000000000000000000000000000000000000000000
        a0b86991c6218b36c1d19d4a2e9eb0ce3606eb4800000000000000000000000000000000000000000000000000000000
        000000000000000000000000000000000000000000000000000000000000000000000060000000000000000000000000
        0000000000000000000000000000000000000044a9059cbb00000000000000000000000005104ebba2b6d3b8254aa41c
        f6df80462f6160ae00000000000000000000000000000000000000000000000000000001abe1cd590000000000000000
        000000000000000000000000000000000000000000000000000000000000000005104ebba2b6d3b8254aa41cf6df8046
        2f6160ae0000000000000000000000000000000000000000000000000000000000000000000000000000000000000000
        000000000000000000000000000000000000006000000000000000000000000000000000000000000000000000000000
        000000c4022c0d9f00000000000000000000000000000000000000000000012b1445dfceb244cadb0000000000000000
        0000000000000000000000000000000000000000000000000000000000000000000000009008d19f58aabd9ed0d60971
        565aa8510560ab4100000000000000000000000000000000000000000000000000000000000000800000000000000000
        000000000000000000000000000000000000000000000000000000000000000000000000000000000000000000000000
        000000000000000000000000000000000000000000000000000000000000000000000000000000000000000000000000
        c02aaa39b223fe8d0a0e5c4f27ead9083c756cc200000000000000000000000000000000000000000000000000000000
        000000000000000000000000000000000000000000000000000000000000000000000060000000000000000000000000
        0000000000000000000000000000000000000044a9059cbb00000000000000000000000005e3734ff2b3127e01070eb2
        25afe910525959ad0000000000000000000000000000000000000000000000000a4f4fa622eb59800000000000000000
        0000000000000000000000000000000000000000000000000000000000000000dac17f958d2ee523a2206206994597c1
        3d831ec70000000000000000000000000000000000000000000000000000000000000000000000000000000000000000
        000000000000000000000000000000000000006000000000000000000000000000000000000000000000000000000000
        00000044a9059cbb00000000000000000000000005e3734ff2b3127e01070eb225afe910525959ad0000000000000000
        0000000000000000000000000000000000000001cf862866000000000000000000000000000000000000000000000000
        000000000000000000000000000000001d94bedcb3641ba060091ed090d28bbdccdb7f1d000000000000000000000000
        000000000000000000000000000000000000000000000000000000000000000000000000000000000000000000000000
        00000060000000000000000000000000000000000000000000000000000000000000006420cf38cc0000000000000000
        00000000000000000000000000000000405ff0dca143cb52000000000000000000000000000000000000000000000142
        8c970000000000008000000000000000000000002dd35b4da6534230ff53048f7477f17f7f4e7a700000000000000000
        000000000000000000000000000000000000000000000000000000000000000000000000000000000000000000000000
        00000000
    ";

const PARTIAL_LIMIT_ORDER: &str = "
        13d79a0b0000000000000000000000000000000000000000000000000000000000000080000000000000000000000000
        000000000000000000000000000000000000012000000000000000000000000000000000000000000000000000000000
        000001c000000000000000000000000000000000000000000000000000000000000003e0000000000000000000000000
        0000000000000000000000000000000000000004000000000000000000000000ba386a4ca26b85fd057ab1ef86e3dc7b
        deb5ce70000000000000000000000000c02aaa39b223fe8d0a0e5c4f27ead9083c756cc2000000000000000000000000
        ba386a4ca26b85fd057ab1ef86e3dc7bdeb5ce70000000000000000000000000c02aaa39b223fe8d0a0e5c4f27ead908
        3c756cc20000000000000000000000000000000000000000000000000000000000000004000000000000000000000000
        000000000000000000000000000000000083732b0000000000000000000000000000000000000000000000000de0b6b3
        a76400000000000000000000000000000000000000000000000000000ff962d1e3a803f9000000000000000000000000
        0000000000000001b133ca2607cfe842f8f4c8ef00000000000000000000000000000000000000000000000000000000
        000000010000000000000000000000000000000000000000000000000000000000000020000000000000000000000000
        000000000000000000000000000000000000000200000000000000000000000000000000000000000000000000000000
        000000030000000000000000000000006c7f534c81dfedf90c9e42effb410a44e4f8ef10000000000000000000000000
        0000000000000002863c1f5cdae42f954000000000000000000000000000000000000000000000000000000017979cfe
        362a00000000000000000000000000000000000000000000000000000000000064690e05c1164815465bff632c198b84
        55e9a421c07e8ce426c8cd1b59eef7b305b8ca9000000000000000000000000000000000000000000000000000000000
        000000000000000000000000000000000000000000000000000000000000000000000002000000000000000000000000
        0000000000000001b133ca2607cfe842f8f4c8ef00000000000000000000000000000000000000000000000000000000
        000001600000000000000000000000000000000000000000000000000000000000000041f8ad81db7333b891f88527d1
        00a06f23ff4d7859c66ddd71514291379deb8ff660f4fb2a24173eaac5fad2a124823e968686e39467c7f3054c13c4b7
        0980cc1a1c00000000000000000000000000000000000000000000000000000000000000000000000000000000000000
        000000000000000000000000000000000000006000000000000000000000000000000000000000000000000000000000
        000000800000000000000000000000000000000000000000000000000000000000000260000000000000000000000000
        000000000000000000000000000000000000000000000000000000000000000000000000000000000000000000000000
        000000010000000000000000000000000000000000000000000000000000000000000020000000000000000000000000
        7a250d5630b4cf539739df2c5dacb4c659f2488d00000000000000000000000000000000000000000000000000000000
        000000000000000000000000000000000000000000000000000000000000000000000060000000000000000000000000
        00000000000000000000000000000000000001048803dbee000000000000000000000000000000000000000000000000
        0ff962d452d79e2a0000000000000000000000000000000000000001b02aeadbd4ac223168f3b3120000000000000000
        0000000000000000000000000000000000000000000000a00000000000000000000000009008d19f58aabd9ed0d60971
        565aa8510560ab41ffffffffffffffffffffffffffffffffffffffffffffffffffffffffffffffff0000000000000000
        000000000000000000000000000000000000000000000002000000000000000000000000ba386a4ca26b85fd057ab1ef
        86e3dc7bdeb5ce70000000000000000000000000c02aaa39b223fe8d0a0e5c4f27ead9083c756cc20000000000000000
        000000000000000000000000000000000000000000000000000000000000000000000000000000000000000000000000
        00000000
    ";

const FOK_ORDER: &str = "
        13d79a0b0000000000000000000000000000000000000000000000000000000000000080000000000000000000000000
        00000000000000000000000000000000000000e000000000000000000000000000000000000000000000000000000000
        000001400000000000000000000000000000000000000000000000000000000000000360000000000000000000000000
        0000000000000000000000000000000000000002000000000000000000000000eeeeeeeeeeeeeeeeeeeeeeeeeeeeeeee
        eeeeeeee000000000000000000000000f88baf18fab7e330fa0c4f83949e23f52fececce000000000000000000000000
        0000000000000000000000000000000000000002000000000000000000000000000000000000000000000000000132e6
        7578cc3f00000000000000000000000000000000000000000000000000000002540be400000000000000000000000000
        000000000000000000000000000000000000000100000000000000000000000000000000000000000000000000000000
        000000200000000000000000000000000000000000000000000000000000000000000001000000000000000000000000
        0000000000000000000000000000000000000000000000000000000000000000b70cd1ebd3b24aeeaf90c60414466303
        38536e7f0000000000000000000000000000000000000000000000a41648a28d9cdecee6000000000000000000000000
        000000000000000000000000013d0a4d504284e900000000000000000000000000000000000000000000000000000000
        643d6a39e9f29ae547955463ed535162aefee525d8d309571a2b18bc26086c8c35d781eb000000000000000000000000
        00000000000000000000002557f7974fde5c000000000000000000000000000000000000000000000000000000000000
        000000080000000000000000000000000000000000000000000000a41648a28d9cdecee6000000000000000000000000
        000000000000000000000000000000000000016000000000000000000000000000000000000000000000000000000000
        000000414935ea3f24155f6757df94d8c0bc96665d46da51e1a8e39d935967c9216a60912fa50a5393a323d453c78d17
        9d0199ddd58f6d787781e4584357d3e0205a76001c000000000000000000000000000000000000000000000000000000
        000000000000000000000000000000000000000000000000000000000000000000000060000000000000000000000000
        000000000000000000000000000000000000008000000000000000000000000000000000000000000000000000000000
        000004200000000000000000000000000000000000000000000000000000000000000000000000000000000000000000
        000000000000000000000000000000000000000200000000000000000000000000000000000000000000000000000000
        0000004000000000000000000000000000000000000000000000000000000000000002c0000000000000000000000000
        ba12222222228d8ba445958a75a0704d566bf2c800000000000000000000000000000000000000000000000000000000
        000000000000000000000000000000000000000000000000000000000000000000000060000000000000000000000000
        00000000000000000000000000000000000001e452bbbe29000000000000000000000000000000000000000000000000
        00000000000000e00000000000000000000000009008d19f58aabd9ed0d60971565aa8510560ab410000000000000000
        0000000000000000000000000000000000000000000000000000000000000000000000009008d19f58aabd9ed0d60971
        565aa8510560ab4100000000000000000000000000000000000000000000000000000000000000000000000000000000
        000000000000000000000000000000a56655800000000000000000000000000000000000000000000000000000000000
        000000010000000067f117350eab45983374f4f83d275d8a5d62b1bf0001000000000000000004f20000000000000000
        000000000000000000000000000000000000000000000001000000000000000000000000f88baf18fab7e330fa0c4f83
        949e23f52fececce000000000000000000000000c02aaa39b223fe8d0a0e5c4f27ead9083c756cc20000000000000000
        00000000000000000000000000000000013eae86d49c2959000000000000000000000000000000000000000000000000
        00000000000000c000000000000000000000000000000000000000000000000000000000000000000000000000000000
        000000000000000000000000000000000000000000000000000000000000000000000000000000000000000000000000
        00000000000000000000000000000000c02aaa39b223fe8d0a0e5c4f27ead9083c756cc2000000000000000000000000
        000000000000000000000000000000000000000000000000000000000000000000000000000000000000000000000000
        0000006000000000000000000000000000000000000000000000000000000000000000242e1a7d4d0000000000000000
        00000000000000000000000000000000013eae86d49c29bf000000000000000000000000000000000000000000000000
        000000000000000000000000000000000000000000000000000000000000000000000000
    ";

const METADATA_BASE: &str = "
        13d79a0b0000000000000000000000000000000000000000000000000000000000000080000000000000000000000000
        00000000000000000000000000000000000000e000000000000000000000000000000000000000000000000000000000
        000001400000000000000000000000000000000000000000000000000000000000000360000000000000000000000000
        0000000000000000000000000000000000000002000000000000000000000000eeeeeeeeeeeeeeeeeeeeeeeeeeeeeeee
        eeeeeeee000000000000000000000000f88baf18fab7e330fa0c4f83949e23f52fececce000000000000000000000000
        0000000000000000000000000000000000000002000000000000000000000000000000000000000000000000000132e6
        7578cc3f00000000000000000000000000000000000000000000000000000002540be400000000000000000000000000
        000000000000000000000000000000000000000100000000000000000000000000000000000000000000000000000000
        000000200000000000000000000000000000000000000000000000000000000000000001000000000000000000000000
        0000000000000000000000000000000000000000000000000000000000000000b70cd1ebd3b24aeeaf90c60414466303
        38536e7f0000000000000000000000000000000000000000000000a41648a28d9cdecee6000000000000000000000000
        000000000000000000000000013d0a4d504284e900000000000000000000000000000000000000000000000000000000
        643d6a39e9f29ae547955463ed535162aefee525d8d309571a2b18bc26086c8c35d781eb000000000000000000000000
        00000000000000000000002557f7974fde5c000000000000000000000000000000000000000000000000000000000000
        000000080000000000000000000000000000000000000000000000a41648a28d9cdecee6000000000000000000000000
        000000000000000000000000000000000000016000000000000000000000000000000000000000000000000000000000
        000000414935ea3f24155f6757df94d8c0bc96665d46da51e1a8e39d935967c9216a60912fa50a5393a323d453c78d17
        9d0199ddd58f6d787781e4584357d3e0205a76001c000000000000000000000000000000000000000000000000000000
        000000000000000000000000000000000000000000000000000000000000000000000060000000000000000000000000
        000000000000000000000000000000000000008000000000000000000000000000000000000000000000000000000000
        000004200000000000000000000000000000000000000000000000000000000000000000000000000000000000000000
        000000000000000000000000000000000000000200000000000000000000000000000000000000000000000000000000
        0000004000000000000000000000000000000000000000000000000000000000000002c0000000000000000000000000
        ba12222222228d8ba445958a75a0704d566bf2c800000000000000000000000000000000000000000000000000000000
        000000000000000000000000000000000000000000000000000000000000000000000060000000000000000000000000
        00000000000000000000000000000000000001e452bbbe29000000000000000000000000000000000000000000000000
        00000000000000e00000000000000000000000009008d19f58aabd9ed0d60971565aa8510560ab410000000000000000
        0000000000000000000000000000000000000000000000000000000000000000000000009008d19f58aabd9ed0d60971
        565aa8510560ab4100000000000000000000000000000000000000000000000000000000000000000000000000000000
        000000000000000000000000000000a56655800000000000000000000000000000000000000000000000000000000000
        000000010000000067f117350eab45983374f4f83d275d8a5d62b1bf0001000000000000000004f20000000000000000
        000000000000000000000000000000000000000000000001000000000000000000000000f88baf18fab7e330fa0c4f83
        949e23f52fececce000000000000000000000000c02aaa39b223fe8d0a0e5c4f27ead9083c756cc20000000000000000
        00000000000000000000000000000000013eae86d49c2959000000000000000000000000000000000000000000000000
        00000000000000c000000000000000000000000000000000000000000000000000000000000000000000000000000000
        000000000000000000000000000000000000000000000000000000000000000000000000000000000000000000000000
        00000000000000000000000000000000c02aaa39b223fe8d0a0e5c4f27ead9083c756cc2000000000000000000000000
        000000000000000000000000000000000000000000000000000000000000000000000000000000000000000000000000
        0000006000000000000000000000000000000000000000000000000000000000000000242e1a7d4d0000000000000000
        00000000000000000000000000000000013eae86d49c29bf000000000000000000000000000000000000000000000000
        000000000000000000000000000000000000000000000000000000000000000000000000
    ";

#[test]
fn total_surplus_test() {
    // transaction 0x4ed25533ae840fa36951c670b1535265977491b8c4db38d6fe3b2cffe3dad298
    let settlement = DecodedSettlement::new(&bytes(MAINNET_SETTLEMENT)).unwrap();
    let surplus = lossy(settlement.total_surplus(&mainnet_prices()));
    assert_eq!(surplus, 33350701806766732.);
}

#[test]
fn total_fees_test() {
    // transaction 0x4ed25533ae840fa36951c670b1535265977491b8c4db38d6fe3b2cffe3dad298
    let settlement = DecodedSettlement::new(&bytes(MAINNET_SETTLEMENT_FEES)).unwrap();
    let orders = vec![
        OrderExecution {
            order_uid: uid("0xa8b0c9be7320d1314c6412e6557efd062bb9f97f2f4187f8b513f50ff63597cae995e2a9ae5210feb6dd07618af28ec38b2d7ce163f4d8c4"),
            executed_solver_fee: Some(u(48263037)),
            buy_amount: u(11446254517730382294118),
            sell_amount: u(14955083027),
            sell_token: addr("dac17f958d2ee523a2206206994597c13d831ec7"),
            buy_token: H160::zero(),
            executed_amount: u(14955083027),
            signature: hex::decode("155ff208365bbf30585f5b18fc92d766e46121a1963f903bb6f3f77e5d0eaefb27abc4831ce1f837fcb70e11d4e4d97474c677469240849d69e17f7173aead841b").unwrap(),
            solver_determines_fee: false,
        },
        OrderExecution {
            order_uid: uid("0x82582487739d1331572710a9283dc244c134d323f309eb0aac6c842ff5227e90f352bffb3e902d78166a79c9878e138a65022e1163f4d8bb"),
            executed_solver_fee: Some(u(127253135942751092736)),
            buy_amount: u(1236593080),
            sell_amount: u(5701912712048588025933),
            sell_token: addr("f4d2888d29d722226fafa5d9b24f9164c092421e"),
            buy_token: H160::zero(),
            executed_amount: u(5701912712048588025933),
            signature: hex::decode("882a1c875ff1316bb79bde0d0792869f784d58097d8489a722519e6417c577cf5cc745a2e353298dea6514036d5eb95563f8f7640e20ef0fd41b10ccbdfc87641b").unwrap(),
            solver_determines_fee: false,
        },
    ];
    let fees = lossy(settlement.total_fees(&mainnet_prices(), orders));
    assert_eq!(fees, 45377573614605000.);
}

#[test]
fn total_fees_test_partial_limit_order() {
    // transaction 0x00e0e45ccc01b1bc99350444742cf5b4701d0c3eb85bc8c8f60a07e1e8cc4a36
    let settlement = DecodedSettlement::new(&bytes(PARTIAL_LIMIT_ORDER)).unwrap();
    let prices = vec![
        (addr("ba386a4ca26b85fd057ab1ef86e3dc7bdeb5ce70"), u(8302940)),
        (addr("c02aaa39b223fe8d0a0e5c4f27ead9083c756cc2"), u(1000000000000000000)),
    ];
    let native_token = addr("C02aaA39b223FE8D0A0e5C4F27eAD9083C756Cc2");
    let external_prices = ExternalPrices::try_from_auction_prices(native_token, prices).unwrap();
    let orders = vec![OrderExecution {
        order_uid: uid("0xaa6ff3f3f755e804eefc023967be5d7f8267674d4bae053eaca01be5801854bf6c7f534c81dfedf90c9e42effb410a44e4f8ef1064690e05"),
        executed_solver_fee: None,
        buy_amount: u(11446254517730382294118),
        sell_amount: u(14955083027),
        sell_token: addr("ba386a4ca26b85fd057ab1ef86e3dc7bdeb5ce70"),
        buy_token: addr("c02aaa39b223fe8d0a0e5c4f27ead9083c756cc2"),
        executed_amount: u(134069619089011499167823218927),
        signature: hex::decode("f8ad81db7333b891f88527d100a06f23ff4d7859c66ddd71514291379deb8ff660f4fb2a24173eaac5fad2a124823e968686e39467c7f3054c13c4b70980cc1a1c").unwrap(),
        solver_determines_fee: true,
    }];
    let fees = lossy(settlement.total_fees(&external_prices, orders));
    assert_eq!(fees, 3768095572151424.);
}

#[test]
fn execution_amount_does_not_matter_for_fok_orders() {
    let settlement = DecodedSettlement::new(&bytes(FOK_ORDER)).unwrap();
    let prices = vec![
        (addr("eeeeeeeeeeeeeeeeeeeeeeeeeeeeeeeeeeeeeeee"), u(1000000000000000000)),
        (addr("f88baf18fab7e330fa0c4f83949e23f52fececce"), u(29428019732094)),
    ];
    let native_token = addr("C02aaA39b223FE8D0A0e5C4F27eAD9083C756Cc2");
    let external_prices = ExternalPrices::try_from_auction_prices(native_token, prices).unwrap();
    let orders = vec![OrderExecution {
        order_uid: OrderUid::default(),
        executed_solver_fee: Some(u(463182886014406361088)),
        buy_amount: u(89238894792574185),
        sell_amount: u(3026871740084629982950),
        sell_token: addr("f88baf18fab7e330fa0c4f83949e23f52fececce"),
        buy_token: addr("eeeeeeeeeeeeeeeeeeeeeeeeeeeeeeeeeeeeeeee"),
        executed_amount: u(0),
        signature: hex::decode("4935ea3f24155f6757df94d8c0bc96665d46da51e1a8e39d935967c9216a60912fa50a5393a323d453c78d179d0199ddd58f6d787781e4584357d3e0205a76001c").unwrap(),
        solver_determines_fee: false,
    }];
    let fees = lossy(settlement.total_fees(&external_prices, orders));
    assert_eq!(fees, 13630555109200196.);
}

#[test]
fn decodes_metadata() {
    let call_data = bytes(METADATA_BASE);
    let plain = DecodedSettlement::new(&call_data).unwrap();

    // Too few bytes appended: decoded as if there were none.
    let metadata = [42u8; META_DATA_LEN - 1];
    let with_metadata = [call_data.clone(), metadata.to_vec()].concat();
    assert_eq!(plain, DecodedSettlement::new(&with_metadata).unwrap());

    // Same if too many are appended.
    let metadata = [42u8; META_DATA_LEN];
    let with_metadata = [call_data.clone(), vec![100], metadata.to_vec()].concat();
    assert_eq!(plain, DecodedSettlement::new(&with_metadata).unwrap());

    // Exactly the expected number of bytes is metadata.
    let metadata = [42u8; META_DATA_LEN];
    let with_metadata = [call_data, metadata.to_vec()].concat();
    let with_metadata = DecodedSettlement::new(&with_metadata).unwrap();
    assert_eq!(with_metadata.metadata, Some(metadata));

    // The other fields are those decoded without metadata.
    let metadata_removed_again = DecodedSettlement {
        metadata: None,
        ..with_metadata
    };
    assert_eq!(plain, metadata_removed_again);
}

#[test]
fn fok_fee_ignores_the_decoded_executed_amount() {
    let mut call_data = bytes(FOK_ORDER);
    let reference = DecodedSettlement::new(&call_data).unwrap();
    // The executed amount of the only trade is its tenth head word.
    let trade_start = 4 + 0x180;
    let executed_at = trade_start + 9 * 32 + 31;
    call_data[executed_at] ^= 0x55;
    let altered = DecodedSettlement::new(&call_data).unwrap();
    assert_ne!(reference.trades[0].executed_amount, altered.trades[0].executed_amount);
    let prices = vec![
        (addr("eeeeeeeeeeeeeeeeeeeeeeeeeeeeeeeeeeeeeeee"), u(1000000000000000000)),
        (addr("f88baf18fab7e330fa0c4f83949e23f52fececce"), u(29428019732094)),
    ];
    let native_token = addr("C02aaA39b223FE8D0A0e5C4F27eAD9083C756Cc2");
    let external_prices = ExternalPrices::try_from_auction_prices(native_token, prices).unwrap();
    let order = OrderExecution {
        order_uid: OrderUid::default(),
        executed_solver_fee: Some(u(463182886014406361088)),
        buy_amount: u(89238894792574185),
        sell_amount: u(3026871740084629982950),
        sell_token: addr("f88baf18fab7e330fa0c4f83949e23f52fececce"),
        buy_token: addr("eeeeeeeeeeeeeeeeeeeeeeeeeeeeeeeeeeeeeeee"),
        executed_amount: u(0),
        signature: hex::decode("4935ea3f24155f6757df94d8c0bc96665d46da51e1a8e39d935967c9216a60912fa50a5393a323d453c78d179d0199ddd58f6d787781e4584357d3e0205a76001c").unwrap(),
        solver_determines_fee: false,
    };
    let fees = lossy(altered.total_fees(&external_prices, vec![order]));
    assert_eq!(fees, 13630555109200196.);
}

#[test]
fn wrong_selector_is_rejected() {
    let mut call_data = bytes(FOK_ORDER);
    call_data[0] = 0x14;
    assert_eq!(DecodedSettlement::new(&call_data), Err(DecodingError::InvalidSelector));
    assert_eq!(DecodedSettlement::new(&[0x13, 0xd7]), Err(DecodingError::InvalidSelector));
}

#[test]
fn truncated_arguments_are_rejected() {
    let call_data = bytes(FOK_ORDER);
    let truncated = &call_data[..call_data.len() - 200];
    assert_eq!(DecodedSettlement::new(truncated), Err(DecodingError::Other));
    assert_eq!(DecodedSettlement::new(&[0x13, 0xd7, 0x9a, 0x0b]), Err(DecodingError::Other));
}

#[test]
fn decoded_fields_of_a_settlement() {
    let settlement = DecodedSettlement::new(&bytes(FOK_ORDER)).unwrap();
    assert_eq!(settlement.tokens, vec![
        addr("eeeeeeeeeeeeeeeeeeeeeeeeeeeeeeeeeeeeeeee"),
        addr("f88baf18fab7e330fa0c4f83949e23f52fececce"),
    ]);
    assert_eq!(settlement.clearing_prices, vec![u(0x132e67578cc3f), u(0x2540be400)]);
    assert_eq!(settlement.trades.len(), 1);
    let trade = &settlement.trades[0];
    assert_eq!(trade.sell_token_index, u(1));
    assert_eq!(trade.buy_token_index, u(0));
    assert_eq!(trade.receiver, addr("b70cd1ebd3b24aeeaf90c6041446630338536e7f"));
    assert_eq!(trade.valid_to, 0x643d6a39);
    assert_eq!(trade.flags.0, u(8));
    assert_eq!(trade.signature.len(), 65);
    assert_eq!(settlement.interactions[0].len(), 0);
    assert_eq!(settlement.interactions[1].len(), 2);
    assert_eq!(settlement.interactions[2].len(), 0);
    assert_eq!(settlement.interactions[1][0].target, addr("ba12222222228d8ba445958a75a0704d566bf2c8"));
    assert_eq!(settlement.interactions[1][1].call_data.len(), 0x24);
    assert_eq!(settlement.metadata, None);
}

fn trade_with(flags: u64, sell: u128, buy: u128, executed: u128) -> batch_auction::settlement::DecodedTrade {
    batch_auction::settlement::DecodedTrade {
        sell_token_index: u(0),
        buy_token_index: u(1),
        receiver: H160::zero(),
        sell_amount: u(sell),
        buy_amount: u(buy),
        valid_to: 0,
        app_data: [0; 32],
        fee_amount: u(0),
        flags: TradeFlags(u(flags as u128)),
        executed_amount: u(executed),
        signature: vec![1, 2, 3],
    }
}

#[test]
fn sell_order_surplus_in_native_token() {
    // Sell 100 of token 0 at limit 50 of token 1; clearing prices 3 and 4:
    // surplus = 100 * 3 - (100 * 50 / 100) * 4 = 100 in reference units,
    // 100 / 4 = 25 of token 1, worth 25 * 2 = 50 in the native token.
    let tokens = vec![addr("0000000000000000000000000000000000000001"), addr("0000000000000000000000000000000000000002")];
    let clearing = vec![u(3), u(4)];
    let native_token = addr("C02aaA39b223FE8D0A0e5C4F27eAD9083C756Cc2");
    let prices = ExternalPrices::try_from_auction_prices(native_token, vec![(tokens[1], u(2_000_000_000_000_000_000))]).unwrap();
    assert_eq!(surplus(&trade_with(0, 100, 50, 100), &tokens, &clearing, &prices), Some(u(50)));
    // Zero executed amount: zero surplus.
    assert_eq!(surplus(&trade_with(0, 100, 50, 0), &tokens, &clearing, &prices), Some(u(0)));
    // Zero sell limit, or zero buy limit: none.
    assert_eq!(surplus(&trade_with(0, 0, 50, 100), &tokens, &clearing, &prices), None);
    assert_eq!(surplus(&trade_with(0, 100, 0, 100), &tokens, &clearing, &prices), None);
    // Negative surplus: none.
    assert_eq!(surplus(&trade_with(0, 100, 90, 100), &tokens, &clearing, &prices), None);
    // A buy order on the same prices needs the sell token's external price.
    assert_eq!(surplus(&trade_with(1, 100, 50, 50), &tokens, &clearing, &prices), None);
}

#[test]
fn trade_flags_bits() {
    assert_eq!(TradeFlags(u(0)).order_kind(), OrderKind::Sell);
    assert_eq!(TradeFlags(u(1)).order_kind(), OrderKind::Buy);
    assert!(TradeFlags(u(2)).partially_fillable());
    assert!(!TradeFlags(u(9)).partially_fillable());
    assert_eq!(TradeFlags(u(0x1ff)).as_u8(), 0xff);
}

#[test]
fn limit_order_fee_from_price_gap() {
    // A partially fillable sell order of 1000, whose tokens are listed twice:
    // the uniform prices are those at their first occurrences, the adjusted
    // ones those at the trade's indices.
    let tokens = vec![addr("0000000000000000000000000000000000000001"), addr("0000000000000000000000000000000000000002"), addr("0000000000000000000000000000000000000001"), addr("0000000000000000000000000000000000000002")];
    let settlement = DecodedSettlement {
        tokens: tokens.clone(),
        clearing_prices: vec![u(20), u(10), u(10), u(25)],
        trades: vec![{
            let mut t = trade_with(2, 1000, 100, 1000);
            t.sell_token_index = u(2);
            t.buy_token_index = u(3);
            t
        }],
        interactions: [Vec::new(), Vec::new(), Vec::new()],
        metadata: None,
    };
    let native_token = addr("C02aaA39b223FE8D0A0e5C4F27eAD9083C756Cc2");
    let prices = ExternalPrices::try_from_auction_prices(native_token, vec![(tokens[0], u(1_000_000_000_000_000_000))]).unwrap();
    let order = OrderExecution {
        order_uid: OrderUid([7; 56]),
        executed_solver_fee: None,
        sell_token: tokens[0],
        buy_token: tokens[1],
        sell_amount: u(1000),
        buy_amount: u(100),
        executed_amount: u(1000),
        signature: vec![1, 2, 3],
        solver_determines_fee: true,
    };
    // Uniform prices are those of the first occurrences: 20 and 10. Received
    // 1000 * 10 / 25 = 400 buy tokens need 400 * 10 / 20 = 200 sell tokens:
    // the fee is 800 sell tokens, worth 800 in the native token.
    let fees = settlement.order_executions(&prices, vec![order.clone()]);
    assert_eq!(fees.len(), 1);
    assert_eq!(fees[0].sell, u(800));
    assert_eq!(fees[0].native, u(800));
    assert_eq!(fees[0].order, OrderUid([7; 56]));
    assert_eq!(settlement.total_fees(&prices, vec![order.clone()]), u(800));
    // One execution serves one trade only.
    let mut twice = settlement;
    twice.trades.push(twice.trades[0].clone());
    assert_eq!(twice.total_fees(&prices, vec![order.clone()]), u(800));
    assert_eq!(twice.total_fees(&prices, vec![order.clone(), order]), u(1600));
}
