use curve25519_dalek::constants::ED25519_BASEPOINT_POINT as G;
use curve25519_dalek::Scalar as DalekScalar;
use monero_oxide::ed25519::Point;
use monero_oxide::transaction::{Input, NotPruned, Timelock, Transaction, TransactionPrefix};
use monero_wallet::address::{AddressType, MoneroAddress, Network};
use monero_wallet::send::SignableTransaction;

use xmxx_companion::bytes::{encode_hex, HexError};
use xmxx_companion::chain::{view_keys, ViewKeys};
use xmxx_companion::json::Json;
use xmxx_companion::page::{
    broadcast_page, error_page, html_page, make_code, not_found_page, qr_svg, render, send_page,
    sync_page, MAX_CODE_BYTES,
};
use xmxx_companion::payload::{encode_output_payload, output_payloads};
use xmxx_companion::relay::Fees;
use xmxx_companion::rpc::RpcError;
use xmxx_companion::select::{by_amount, select};
use xmxx_companion::send::{
    build_error, decode_envelope, decode_signed, parse_signed, ring_error, select_inputs, Attempt,
    CheckedPayment, FundedPayment, Payment, SendError, SignedError, UnsignedPayment, MAX_QR_BYTES,
    RING_LEN,
};
use xmxx_companion::wallet::{OwnedOutput, WalletState};

fn key(n: u64) -> [u8; 32] {
    (G * DalekScalar::from(n)).compress().to_bytes()
}

fn keys() -> ViewKeys {
    let mut raw = vec![0x12u8];
    raw.extend(key(11));
    raw.extend([9u8; 36]);
    view_keys(&raw, DalekScalar::from(7u64).to_bytes()).ok().unwrap()
}

fn address(network: Network) -> String {
    let point = |n: u64| Point::from(G * DalekScalar::from(n));
    MoneroAddress::new(network, AddressType::Legacy, point(5), point(6)).to_string()
}

fn output_key(tag: u8) -> [u8; 32] {
    key(1000 + tag as u64)
}

fn owned(amount: u64, tag: u8) -> OwnedOutput {
    OwnedOutput {
        tx_pub_key: [tag; 32],
        index_in_tx: tag as u64,
        index_on_chain: 1000 + tag as u64,
        key: output_key(tag),
        amount,
        wallet_output: vec![tag],
    }
}

fn fee(per_kb: u64) -> Json {
    let fee = Json::Object(vec![("fee".to_string(), Json::Number(per_kb))]);
    Json::Object(vec![("result".to_string(), fee)])
}

/// The first output, serialized, with a ring of its own.
fn ring(amount: u64, members: u64) -> Vec<u8> {
    ring_of(0, amount, members)
}

/// An output, serialized, with a ring of its own.
fn ring_of(tag: u8, amount: u64, members: u64) -> Vec<u8> {
    let mut b = output_key(tag).to_vec();
    b.extend(DalekScalar::from(3u64).to_bytes());
    b.extend(DalekScalar::from(4u64).to_bytes());
    b.extend(amount.to_le_bytes());
    b.push(members as u8);
    b.extend(vec![1u8; members as usize]);
    b.push(2);
    for i in 0..members {
        b.extend(key(50 + i));
        b.extend(key(80 + i));
    }
    b
}

#[test]
fn the_largest_outputs_come_first() {
    let v = vec![owned(5, 0), owned(9, 1), owned(5, 2), owned(12, 3), owned(9, 4)];
    assert_eq!(by_amount(&v), vec![3, 1, 4, 0, 2]);
    assert_eq!(by_amount(&vec![]), Vec::<usize>::new());
}

#[test]
fn outputs_are_selected_until_they_cover_the_amount() {
    let v = vec![owned(5, 0), owned(9, 1), owned(5, 2)];
    assert_eq!(select(&v, 9, 0), Ok(vec![1]));
    assert_eq!(select(&v, 10, 0), Ok(vec![1, 0]));
    assert_eq!(select(&v, 15, 0), Ok(vec![1, 0, 2]));
    assert_eq!(select(&v, 19, 0), Ok(vec![1, 0, 2]));
    assert_eq!(select(&v, 20, 0), Err(19));
    assert_eq!(select(&v, 0, 0), Ok(vec![]));
    let rich = vec![owned(u64::MAX, 0), owned(u64::MAX - 1, 1)];
    assert_eq!(select(&rich, u64::MAX, 0), Ok(vec![0]));
}

#[test]
fn selected_outputs_cover_the_fee_too() {
    let v = vec![owned(5, 0), owned(9, 1), owned(5, 2)];
    assert_eq!(select(&v, 8, 1), Ok(vec![1]));
    assert_eq!(select(&v, 9, 1), Ok(vec![1, 0]));
    assert_eq!(select(&v, 1, 18), Ok(vec![1, 0, 2]));
    assert_eq!(select(&v, 19, 1), Err(19));
}

#[test]
fn a_sum_beyond_the_largest_number_still_covers() {
    let v = vec![owned(u64::MAX - 5, 0), owned(u64::MAX - 9, 1)];
    assert_eq!(select(&v, u64::MAX, 0), Ok(vec![0, 1]));
    assert_eq!(select(&v, u64::MAX, u64::MAX - 14), Ok(vec![0, 1]));
    assert_eq!(select(&v, u64::MAX, u64::MAX - 13), Err(2 * (u64::MAX as u128) - 14));
}

#[test]
fn selected_inputs_are_serialized_outputs() {
    let v = vec![owned(5, 7), owned(9, 8), owned(6, 9)];
    assert_eq!(select_inputs(&v, 10, 0).unwrap(), vec![vec![8u8], vec![9u8]]);
    assert_eq!(select_inputs(&v, 10, 6).unwrap(), vec![vec![8u8], vec![9u8], vec![7u8]]);
    assert!(matches!(select_inputs(&v, 21, 0), Err(SendError::InsufficientFunds { available: 20 })));
    assert!(matches!(select_inputs(&v, 10, 11), Err(SendError::InsufficientFunds { available: 20 })));
}

#[test]
fn no_selection_is_smaller() {
    let v = vec![owned(3, 0), owned(8, 1), owned(4, 2), owned(7, 3)];
    for amount in 1..=22u64 {
        let ours = select(&v, amount, 0).unwrap().len();
        assert_eq!(select(&v, 1, amount - 1).unwrap().len(), ours);
        for mask in 0..16u32 {
            let chosen: Vec<&OwnedOutput> = (0..4).filter(|i| mask & (1 << i) != 0).map(|i| &v[i]).collect();
            if chosen.iter().map(|o| o.amount).sum::<u64>() >= amount {
                assert!(chosen.len() >= ours);
            }
        }
    }
}

#[test]
fn payments_are_checked_in_order() {
    assert!(matches!(Payment::new("x", 0), Err(SendError::ZeroAmount)));
    let outputs = vec![owned(5, 0)];
    let payment = |to: &str| Payment::new(to, 4).unwrap();
    assert!(matches!(payment("x").check(&vec![], false), Err(SendError::NoOutputs)));
    assert!(matches!(payment("x").check(&outputs, false), Err(SendError::BadAddress)));
    let refused = |to: &str| match payment(to).check(&outputs, true) {
        Err(SendError::DestinationParse(m)) => m,
        _ => panic!("not refused"),
    };
    let stagenet = address(Network::Stagenet);
    for to in ["x", &stagenet] {
        let message = MoneroAddress::from_str(Network::Mainnet, to).err().unwrap().to_string();
        assert_eq!(refused(to), message);
    }
    assert!(payment(&address(Network::Mainnet)).check(&outputs, true).is_ok());
}

/// A payment from outputs with some amounts.
fn checked(amount: u64, amounts: &[u64]) -> CheckedPayment {
    let outputs = amounts.iter().enumerate().map(|(i, a)| owned(*a, i as u8)).collect();
    Payment::new(&address(Network::Mainnet), amount).unwrap().check(&outputs, true).ok().unwrap()
}

#[test]
fn payments_are_funded() {
    let checked = |amount: u64| checked(amount, &[5, 9]);
    let funded = checked(12).fund(&fee(2048 * 30)).ok().unwrap();
    assert_eq!(funded.inputs(), &vec![vec![1u8], vec![0u8]]);
    assert_eq!(funded.fees(), Fees { per_weight: 30, mask: 2048 });
    assert!(matches!(checked(12).fund(&Json::Null), Err(SendError::Fee(RpcError::NoResult { .. }))));
    assert!(matches!(checked(99).fund(&fee(2048 * 10_001)), Err(SendError::Fee(RpcError::InvalidFee))));
    assert!(matches!(checked(99).fund(&fee(1)), Err(SendError::InsufficientFunds { available: 14 })));
}

fn funded(amount: u64, amounts: &[u64]) -> FundedPayment {
    checked(amount, amounts).fund(&fee(2048 * 20)).ok().unwrap()
}

#[test]
fn a_fee_takes_more_inputs() {
    let payment = |amount: u64| funded(amount, &[5, 9, 7, 1]);
    assert_eq!(payment(9).inputs(), &vec![vec![1u8]]);
    let more = payment(9).reselect(1).ok().unwrap();
    assert_eq!(more.inputs(), &vec![vec![1u8], vec![2u8]]);
    let most = more.reselect(13).ok().unwrap();
    assert_eq!(most.inputs(), &vec![vec![1u8], vec![2u8], vec![0u8], vec![3u8]]);
    assert!(matches!(most.reselect(14), Err(SendError::InsufficientFunds { available: 22 })));
    assert!(matches!(payment(8).reselect(1), Err(SendError::WantOfFunds { fee: 1 })));
}

#[test]
fn unsigned_transactions_are_built() {
    let rings = vec![ring(1_000_000_000_000, RING_LEN as u64)];
    let payment = funded(400_000_000_000, &[1_000_000_000_000]);
    let unsigned = payment.build(&keys(), &rings).ok().unwrap();
    assert_eq!((unsigned.amount, unsigned.inputs), (400_000_000_000, 1));
    assert_eq!(unsigned.to, address(Network::Mainnet));
    let tx = SignableTransaction::read(&mut unsigned.payload.as_slice()).unwrap();
    assert_eq!(tx.fee_rate().per_weight(), 20);
    assert_eq!(tx.serialize(), unsigned.payload);
    assert_eq!(payment.build(&keys(), &rings).ok().unwrap().payload, unsigned.payload);
}

#[test]
fn transactions_that_cannot_be_built() {
    let good = ring(1_000_000, RING_LEN as u64);
    let error = |amount: u64, amounts: &[u64], rings: Vec<Vec<u8>>| {
        funded(amount, amounts).build(&keys(), &rings).err().unwrap()
    };
    match error(1_000_000, &[1_000_000], vec![good.clone()]) {
        SendError::WantOfFunds { fee } => assert!(fee > 0 && fee % 2048 == 0),
        _ => panic!("no want of funds"),
    }
    assert!(matches!(error(1, &[1], vec![]), SendError::RingCount));
    assert!(matches!(error(1, &[1], vec![good.clone(), good.clone()]), SendError::RingCount));
    match error(1, &[1_000_000], vec![ring(1_000_000, 11)]) {
        SendError::Build(m) => {
            assert_eq!(m, monero_wallet::send::SendError::InvalidDecoyQuantity.to_string())
        }
        _ => panic!("built"),
    }
    match error(1, &[1], vec![vec![1, 2, 3]]) {
        SendError::Ring(m) => {
            let read = monero_wallet::OutputWithDecoys::read(&mut [1u8, 2, 3].as_slice());
            assert_eq!(m, read.err().unwrap().to_string());
        }
        _ => panic!("read"),
    }
}

#[test]
fn a_ring_is_that_of_its_input() {
    let members = RING_LEN as u64;
    let error = |rings: Vec<Vec<u8>>| {
        funded(15, &[8, 7]).build(&keys(), &rings).err().unwrap()
    };
    let (first, second) = (ring_of(0, 8, members), ring_of(1, 7, members));
    assert!(matches!(error(vec![first.clone(), second.clone()]), SendError::WantOfFunds { .. }));
    assert!(matches!(error(vec![second.clone(), first.clone()]), SendError::ForeignRing));
    assert!(matches!(error(vec![first.clone(), first.clone()]), SendError::ForeignRing));
    assert!(matches!(error(vec![first.clone(), ring_of(1, 9, members)]), SendError::ForeignRing));
    assert!(matches!(error(vec![ring_of(2, 8, members), second]), SendError::ForeignRing));
    let output = owned(8, 0);
    assert!(ring_error(Ok((output.key, 8)), &output).is_none());
    assert!(matches!(ring_error(Ok((output.key, 7)), &output), Some(SendError::ForeignRing)));
    assert!(matches!(ring_error(Ok((output_key(1), 8)), &output), Some(SendError::ForeignRing)));
    assert!(matches!(ring_error(Err("m".to_string()), &output), Some(SendError::Ring(m)) if m == "m"));
}

#[test]
fn a_builder_says_what_it_lacks() {
    assert!(matches!(build_error(Some(7), "m".to_string()), SendError::WantOfFunds { fee: 7 }));
    assert!(matches!(build_error(None, "m".to_string()), SendError::Build(m) if m == "m"));
}

#[test]
fn a_payment_is_tried_until_its_fee_is_covered() {
    let xmr = 1_000_000_000_000u64;
    let first = ring_of(1, xmr, RING_LEN as u64);
    let second = ring_of(0, xmr / 2, RING_LEN as u64);
    let payment = funded(xmr, &[xmr / 2, xmr]);
    let more = match payment.attempt(&keys(), &vec![first.clone()]) {
        Attempt::More(p) => p,
        _ => panic!("no more inputs"),
    };
    assert_eq!(more.inputs(), &vec![vec![1u8], vec![0u8]]);
    match more.attempt(&keys(), &vec![first.clone(), second]) {
        Attempt::Built(unsigned) => {
            assert_eq!((unsigned.inputs, unsigned.amount), (2, xmr));
            assert!(SignableTransaction::read(&mut unsigned.payload.as_slice()).is_ok());
        }
        _ => panic!("not built"),
    }
    let failed = |amount: u64, amounts: &[u64], rings: Vec<Vec<u8>>| {
        match funded(amount, amounts).attempt(&keys(), &rings) {
            Attempt::Failed(e) => e,
            _ => panic!("not failed"),
        }
    };
    let poor = failed(xmr, &[1, xmr], vec![first.clone()]);
    assert!(matches!(poor, SendError::InsufficientFunds { available } if available == xmr as u128 + 1));
    assert!(matches!(failed(xmr, &[xmr], vec![]), SendError::RingCount));
}

#[test]
fn envelopes_are_decoded() {
    assert_eq!(decode_envelope("xmr-txunsigned:0aff"), vec![10, 255]);
    assert_eq!(decode_envelope("0aff"), vec![10, 255]);
    assert_eq!(decode_envelope("xmr-txunsigned:zz"), Vec::<u8>::new());
    let raw: Vec<u8> = (0..=255).collect();
    assert_eq!(decode_envelope(&format!("xmr-txunsigned:{}", encode_hex(&raw))), raw);
}

fn unsigned() -> UnsignedPayment {
    UnsignedPayment { to: "4dest".to_string(), amount: 1, inputs: 3, payload: vec![] }
}

#[test]
fn envelopes_are_served() {
    let page = unsigned().serve("0.000000000001", "xmr-txunsigned:0102").unwrap();
    assert_eq!(
        page,
        send_page("0.000000000001", "4dest", 3, &qr_svg(&[1, 2]), "xmr-txunsigned:0102")
    );
    assert!(page.contains("<h2>Send 0.000000000001 XMR</h2><p>to <code>4dest</code></p>\n"));
    assert!(page.contains(" · inputs: 3 · hold the Prime over the QR → review → sign"));
    assert!(page.contains("<title>xmxx send — scan with Prime</title>"));
    assert!(page.ends_with("<code style='word-break:break-all'>xmr-txunsigned:0102</code></p></body></html>"));
}

#[test]
fn envelopes_that_fit_in_no_code_are_refused() {
    let served = |size: usize| unsigned().serve("1", &encode_hex(&vec![7u8; size]));
    let page = served(MAX_CODE_BYTES).unwrap();
    assert!(page.contains("<svg") && !page.contains("QR encode failed"));
    for size in [MAX_CODE_BYTES + 1, 2000, MAX_QR_BYTES, MAX_QR_BYTES + 1] {
        assert!(matches!(served(size), Err(SendError::TooBig { size: n }) if n == size));
    }
}

fn full_tx() -> Transaction<NotPruned> {
    Transaction::V2 {
        prefix: TransactionPrefix {
            additional_timelock: Timelock::None,
            inputs: vec![Input::Gen(77)],
            outputs: vec![],
            extra: vec![],
        },
        proofs: None,
    }
}

#[test]
fn signed_transactions_are_parsed() {
    let tx = full_tx();
    let text = format!(" \r\n xmr-txsigned:{}\t\n", encode_hex(&tx.serialize()));
    let parsed = parse_signed(&text).ok().unwrap();
    assert_eq!((parsed.hash, parsed.blob), (tx.hash(), tx.serialize()));
    assert_eq!(decode_signed("xmr-txsigned:00FF"), Ok(vec![0, 255]));
    assert_eq!(decode_signed(" héllo "), Ok("héllo".as_bytes().to_vec()));
}

#[test]
fn signed_transactions_that_are_none() {
    assert!(matches!(parse_signed("xmr-txsigned:0"), Err(SignedError::Hex(HexError::OddLength))));
    assert!(matches!(parse_signed("xmr-txsigned:09"), Err(SignedError::Parse(_))));
    assert!(matches!(parse_signed("hello"), Err(SignedError::Parse(_))));
}

#[test]
fn payloads_of_one_transaction() {
    let r = [0xabu8; 32];
    assert_eq!(encode_output_payload(&r, &[]), format!("xmr-output:{}", "ab".repeat(32)));
    assert_eq!(
        encode_output_payload(&r, &[(0, [1u8; 32], None), (12, [2u8; 32], Some((3, 45)))]),
        format!(
            "xmr-output:{};0:{};12:{}:3:45",
            "ab".repeat(32),
            "01".repeat(32),
            "02".repeat(32)
        )
    );
}

#[test]
fn payloads_of_a_wallet() {
    let mut third = owned(3, 1);
    third.index_in_tx = 4;
    let v = vec![owned(1, 1), owned(2, 2), third];
    let (key1, key2) = (encode_hex(&output_key(1)), encode_hex(&output_key(2)));
    assert_eq!(
        output_payloads(&v),
        vec![
            format!("xmr-output:{};1:{key1};4:{key1}", "01".repeat(32)),
            format!("xmr-output:{};2:{key2}", "02".repeat(32)),
        ]
    );
    assert_eq!(output_payloads(&vec![]), Vec::<String>::new());
}

#[test]
fn pages_hold_title_and_body() {
    let page = html_page("T", "<p>B</p>");
    assert!(page.starts_with("<!DOCTYPE html><html><head><meta charset='utf-8'>"));
    assert!(page.contains("<title>T</title>\n        <style>\n        body { background:#000;"));
    assert!(page.ends_with("        a { color:#ff8c42; }\n        </style></head><body><p>B</p></body></html>"));
    assert_eq!(
        not_found_page(),
        html_page("xmxx-companion", "<p>404 — try / or /send?a=&lt;addr&gt;&amp;p=&lt;piconero&gt;</p>")
    );
    assert_eq!(error_page("oops"), html_page("xmxx-companion", "<p class='err'>oops</p>"));
    assert_eq!(
        broadcast_page(&[0x0fu8; 32]),
        html_page(
            "xmxx broadcast",
            &format!(
                "<h2>✅ broadcast</h2><p>The transaction was accepted by the node.</p><p>tx hash: <code>{}</code></p>",
                "0f".repeat(32)
            )
        )
    );
}

#[test]
fn a_code_is_drawn_module_by_module() {
    assert_eq!(
        render(2, &vec![true, false, false, true]),
        "<svg xmlns='http://www.w3.org/2000/svg' viewBox='0 0 12 12' shape-rendering='crispEdges'>\
         <rect width='100%' height='100%' fill='white'/>\
         <rect x='0' y='0' width='6' height='6' fill='black'/>\
         <rect x='6' y='6' width='6' height='6' fill='black'/></svg>"
    );
    assert_eq!(
        render(2, &vec![false, true, false, false]),
        "<svg xmlns='http://www.w3.org/2000/svg' viewBox='0 0 12 12' shape-rendering='crispEdges'>\
         <rect width='100%' height='100%' fill='white'/>\
         <rect x='6' y='0' width='6' height='6' fill='black'/></svg>"
    );
}

#[test]
fn codes_are_those_of_the_encoder() {
    let data = b"xmr-output:0123456789";
    let mut bits = qrcode::bits::Bits::new(qrcode::Version::Normal(3));
    bits.push_byte_data(data).unwrap();
    bits.push_terminator(qrcode::EcLevel::Q).unwrap();
    let (version, level) = (qrcode::Version::Normal(3), qrcode::EcLevel::Q);
    let (words, corrections) =
        qrcode::ec::construct_codewords(&bits.into_bytes(), version, level).unwrap();
    let mut canvas = qrcode::canvas::Canvas::new(version, level);
    canvas.draw_all_functional_patterns();
    canvas.draw_data(&words, &corrections);
    canvas.apply_mask(qrcode::canvas::MaskPattern::Checkerboard);
    let dark: Vec<bool> = canvas.into_colors().iter().map(|c| *c == qrcode::Color::Dark).collect();
    assert_eq!(make_code(data), Some((29, dark.clone())));
    assert_eq!(qr_svg(data), render(29, &dark));
    assert!(qr_svg(data).matches("fill='black'").count() > 100);
    assert_eq!(qr_svg(&[0xffu8; 1663]).contains("svg"), true);
    assert_eq!(qr_svg(&[0xffu8; 1664]), "<p>QR encode failed</p>");
}

#[test]
fn every_code_is_drawn_alike_whatever_it_holds() {
    // The finder patterns stand in three corners, and the mask is the same for all data.
    let format = |data: &[u8]| {
        let (width, dark) = make_code(data).unwrap();
        let row: Vec<bool> = (0..9).map(|x| dark[8 * width + x]).collect();
        assert!((0..7).all(|i| dark[i] && dark[width - 1 - i] && dark[(width - 1) * width + i]));
        row[..6].to_vec()
    };
    let most: Vec<u8> = (0..1663).map(|i| if i % 2 == 0 { 0xaa } else { 0x55 }).collect();
    let expected = format(b"");
    for data in [&most[..], &[0u8; 1663], &[0xffu8; 1663], &[0xccu8; 700], b"xmr"] {
        assert_eq!(format(data), expected);
    }
}

#[test]
fn codes_hold_bytes_as_they_are() {
    // As digits they would take less.
    let width = |bytes: usize| make_code(&vec![b'7'; bytes]).unwrap().0;
    assert_eq!((width(0), width(11), width(12), width(20), width(21)), (21, 21, 25, 25, 29));
    assert_eq!((width(60), width(61), width(1663)), (37, 41, 177));
    assert!(make_code(&vec![b'7'; 1664]).is_none());
}

#[test]
fn the_sync_page() {
    let state = WalletState { outputs: vec![owned(1_500_000_000_000, 1), owned(2, 2)], scanned_to: 3_500_000 };
    let amounts = vec!["1.500000000000".to_string(), "0.000000000002".to_string()];
    let page = sync_page("4addr", "1.500000000002", &state, &amounts);
    let qrs: String = output_payloads(&state.outputs).iter().map(|p| qr_svg(p.as_bytes())).collect();
    let body = format!(
        "<h2>4addr</h2><p class='big'>balance: <b>1.500000000002 XMR</b> · 2 output(s) · synced to block 3500000</p>
             <p>Hold the Prime over a QR below (one per tx) → scan with the sync tab → the device proves ownership (x·G == P) and derives its key images.</p>
             <div class='qrs'>{qrs}</div>
             <table><tr><th>R (short)</th><th>global idx</th><th>tx idx</th><th>amount</th></tr>\
         <tr><td>01010101</td><td>tx 1001</td><td>idx 1</td><td>1.500000000000 XMR</td></tr>\
         <tr><td>02020202</td><td>tx 1002</td><td>idx 2</td><td>0.000000000002 XMR</td></tr></table>"
    );
    assert_eq!(page, html_page("xmxx sync", &body));
}

#[test]
fn payloads_can_be_cut_into_their_parts() {
    let entries = [(0, [1u8; 32], None), (12, [2u8; 32], Some((3, 45)))];
    let payload = encode_output_payload(&[0xabu8; 32], &entries);
    let parts: Vec<&str> = payload.split(';').collect();
    assert_eq!(parts[0], format!("xmr-output:{}", "ab".repeat(32)));
    assert_eq!(parts[1].split(':').collect::<Vec<_>>(), vec!["0", "01".repeat(32).as_str()]);
    assert_eq!(
        parts[2].split(':').collect::<Vec<_>>(),
        vec!["12", "02".repeat(32).as_str(), "3", "45"]
    );
    let other = encode_output_payload(&[0xabu8; 32], &[(0, [1u8; 32], None), (12, [2u8; 32], None)]);
    assert_ne!(payload, other);
}
