use xmxx_companion::bytes::{bytes_32, decode_hex, encode_hex, same_key, varint, HexError};
use xmxx_companion::config::{
    parse_args, parse_view_key_file, start_height, ArgsError, ConfigError,
};
use xmxx_companion::http::{route, Method, Route};
use xmxx_companion::rpc::{range_bounds, RangeBound};
use xmxx_companion::state::{parse_state, state_file, state_text};
use xmxx_companion::text::{
    chars_of, cut, parse_u64, push_decimal, same_text, split, string_of, strip_prefix, trim,
};
use xmxx_companion::wallet::{OwnedOutput, WalletState};

fn chars(s: &str) -> Vec<char> {
    chars_of(s)
}

fn args(list: &[&str]) -> Vec<String> {
    list.iter().map(|s| s.to_string()).collect()
}

#[test]
fn trims_as_str_does() {
    for s in ["", " ", "a", " a b \t", "\u{a0}x\u{2003}", "\r\n y \u{b}\u{c}", "\u{200b}z"] {
        assert_eq!(string_of(&trim(&chars(s))), s.trim());
    }
}

#[test]
fn white_space_of_every_kind_is_trimmed() {
    let white: Vec<u32> = (9..=13)
        .chain([0x20, 0x85, 0xa0, 0x1680])
        .chain(0x2000..=0x200a)
        .chain([0x2028, 0x2029, 0x202f, 0x205f, 0x3000])
        .collect();
    let trimmed: Vec<u32> =
        (0..=0x10ffff).filter(|n| char::from_u32(*n).is_some_and(|c| trim(&vec![c]).is_empty())).collect();
    assert_eq!(trimmed, white);
}

#[test]
fn splits_as_str_does() {
    for s in ["", "a", "a?b", "?", "a?b?c?", "??"] {
        let ours: Vec<String> = split(&chars(s), '?').iter().map(string_of).collect();
        let theirs: Vec<String> = s.split('?').map(|p| p.to_string()).collect();
        assert_eq!(ours, theirs);
        assert_eq!(ours.join("?"), s);
    }
}

#[test]
fn cuts_at_the_first_occurrence() {
    let (a, b) = cut(&chars("key=a=b"), '=');
    assert_eq!((string_of(&a), string_of(&b)), ("key".to_string(), "a=b".to_string()));
    let (a, b) = cut(&chars("key"), '=');
    assert_eq!((string_of(&a), string_of(&b)), ("key".to_string(), String::new()));
}

#[test]
fn strips_a_prefix() {
    assert_eq!(strip_prefix(&chars("address=x"), "address=").map(|v| string_of(&v)), Some("x".to_string()));
    assert!(strip_prefix(&chars("addr"), "address=").is_none());
    assert!(strip_prefix(&chars("Address=x"), "address=").is_none());
}

#[test]
fn compares_texts() {
    assert!(same_text("/send", "/send"));
    assert!(!same_text("/send", "/sen"));
    assert!(!same_text("/send", "/sent"));
}

#[test]
fn reads_numbers_as_the_standard_library_does() {
    for s in [
        "", "0", "7", "+7", "++7", "-1", "007", "12a", " 1", "18446744073709551615",
        "18446744073709551616", "99999999999999999999999", "+",
    ] {
        assert_eq!(parse_u64(&chars(s)), s.parse::<u64>().ok(), "{s}");
    }
}

#[test]
fn numbers_read_back() {
    for n in [0u64, 9, 10, 4096, u64::MAX] {
        let mut s = String::from("n=");
        push_decimal(&mut s, n);
        assert_eq!(s, format!("n={n}"));
        assert_eq!(parse_u64(&chars(&s[2..])), Some(n));
    }
}

#[test]
fn hexadecimal_reads_back() {
    let data = [0u8, 1, 0xab, 0xff, 0x10];
    assert_eq!(encode_hex(&data), "0001abff10");
    assert_eq!(decode_hex("0001ABff10"), Ok(data.to_vec()));
    assert_eq!(decode_hex(""), Ok(vec![]));
}

#[test]
fn bad_hexadecimal_is_refused() {
    assert_eq!(decode_hex("abc"), Err(HexError::OddLength));
    assert_eq!(decode_hex("0g"), Err(HexError::InvalidHexCharacter { c: 'g', index: 1 }));
    assert_eq!(decode_hex("xy1"), Err(HexError::OddLength));
    assert_eq!(decode_hex("00z0"), Err(HexError::InvalidHexCharacter { c: 'z', index: 2 }));
}

#[test]
fn keys_have_32_bytes() {
    assert_eq!(bytes_32(&[7u8; 32]), Some([7u8; 32]));
    assert_eq!(bytes_32(&[7u8; 31]), None);
    assert_eq!(bytes_32(&[7u8; 33]), None);
    assert!(same_key(&[7u8; 32], &[7u8; 32]));
    assert!(!same_key(&[7u8; 32], &[8u8; 32]));
}

#[test]
fn variable_length_integers() {
    assert_eq!(varint(0), vec![0]);
    assert_eq!(varint(127), vec![127]);
    assert_eq!(varint(128), vec![0x80, 0x01]);
    assert_eq!(varint(300), vec![0xac, 0x02]);
    assert_eq!(varint(u64::MAX), vec![0xff, 0xff, 0xff, 0xff, 0xff, 0xff, 0xff, 0xff, 0xff, 0x01]);
}

#[test]
fn range_bounds_are_inclusive() {
    assert_eq!(range_bounds(RangeBound::Included(3), RangeBound::Included(9)), (3, 9));
    assert_eq!(range_bounds(RangeBound::Excluded(3), RangeBound::Excluded(9)), (4, 8));
    assert_eq!(range_bounds(RangeBound::Unbounded, RangeBound::Unbounded), (0, usize::MAX));
    assert_eq!(range_bounds(RangeBound::Unbounded, RangeBound::Excluded(0)), (0, 0));
}

#[test]
fn view_key_file_is_read() {
    let key = "11".repeat(32);
    let file = format!("# export\r\n  address=4abc \r\nview_key=zz\nview_key={key}\r\n\n");
    let config = parse_view_key_file(&file).unwrap();
    assert_eq!(config.address, "4abc");
    assert_eq!(config.view_key, [0x11u8; 32]);
    let config = parse_view_key_file(&format!("view_key={key}\naddress= 4abc\naddress= 5def")).unwrap();
    assert_eq!(config.address, " 5def");
    assert_eq!(config.trimmed_address(), "5def");
}

#[test]
fn view_key_file_errors() {
    let error = |s: &str| parse_view_key_file(s).err();
    assert_eq!(error("view_key=00"), Some(ConfigError::NoAddress));
    assert_eq!(error(""), Some(ConfigError::NoAddress));
    assert_eq!(error("address=4"), Some(ConfigError::NoViewKey));
    assert_eq!(error("address=4\nview_key=0"), Some(ConfigError::ViewKeyHex(HexError::OddLength)));
    assert_eq!(error("address=4\nview_key=00"), Some(ConfigError::ViewKeyLength));
}

#[test]
fn arguments_are_read() {
    let o = parse_args(&args(&[
        "serve", "--view-key", "k.txt", "--rpc", "http://n", "--from", "3500000", "--port", "80",
    ]))
    .unwrap();
    assert_eq!((o.view_key_file.as_str(), o.rpc_url.as_str()), ("k.txt", "http://n"));
    assert_eq!((o.from, o.port), (Some(3500000), 80));
    let o = parse_args(&args(&["serve", "--rpc", "u", "--view-key", "f"])).unwrap();
    assert_eq!((o.from, o.port), (None, 8787));
    let o = parse_args(&args(&[
        "serve", "--rpc", "u", "--view-key", "f", "--from", "9", "--from", "x", "--port", "70000",
        "--port",
    ]))
    .unwrap();
    assert_eq!((o.from, o.port), (None, 8787));
}

#[test]
fn argument_errors() {
    assert!(matches!(parse_args(&args(&[])), Err(ArgsError::Usage)));
    assert!(matches!(parse_args(&args(&["run"])), Err(ArgsError::UnknownCommand(c)) if c == "run"));
    assert!(matches!(parse_args(&args(&["serve", "-x"])), Err(ArgsError::UnknownFlag(f)) if f == "-x"));
    assert!(matches!(parse_args(&args(&["serve", "--rpc", "u"])), Err(ArgsError::NoViewKey)));
    assert!(matches!(parse_args(&args(&["serve", "--view-key", "f"])), Err(ArgsError::NoRpc)));
    assert!(matches!(
        parse_args(&args(&["serve", "--rpc", "u", "--view-key", "f", "--view-key"])),
        Err(ArgsError::NoViewKey)
    ));
}

#[test]
fn scanning_starts_at_the_tip_by_default() {
    assert_eq!(start_height(None, 3_600_000), 3_600_000);
    assert_eq!(start_height(Some(12), 3_600_000), 12);
}

#[test]
fn state_file_beside_the_view_key_file() {
    assert_eq!(state_file("xmxx-viewkey.txt"), "xmxx-viewkey.txt.state.json");
}

fn a_state() -> WalletState {
    let output = |tag: u8, amount: u64, blob: Vec<u8>| OwnedOutput {
        tx_pub_key: [tag; 32],
        index_in_tx: 3,
        index_on_chain: u64::MAX,
        key: [tag + 1; 32],
        amount,
        wallet_output: blob,
    };
    WalletState { outputs: vec![output(1, 70, vec![7, 255]), output(0xa0, 5, vec![])], scanned_to: 3500017 }
}

#[test]
fn states_are_stored_line_by_line() {
    assert_eq!(state_text(&WalletState { outputs: vec![], scanned_to: 3500017 }), "3500017\n");
    assert_eq!(
        state_text(&a_state()),
        format!(
            "3500017\n{} 3 18446744073709551615 {} 70 07ff\n{} 3 18446744073709551615 {} 5 \n",
            "01".repeat(32),
            "02".repeat(32),
            "a0".repeat(32),
            "a1".repeat(32)
        )
    );
}

#[test]
fn stored_states_read_back() {
    let read = parse_state(&state_text(&a_state())).unwrap();
    assert_eq!((read.scanned_to, read.outputs.len()), (3500017, 2));
    let (o, was) = (&read.outputs[0], &a_state().outputs[0]);
    assert_eq!((o.tx_pub_key, o.index_in_tx, o.index_on_chain), (was.tx_pub_key, 3, u64::MAX));
    assert_eq!((o.key, o.amount, o.wallet_output.clone()), (was.key, 70, vec![7, 255]));
    assert_eq!(state_text(&read), state_text(&a_state()));
    assert_eq!(parse_state("0\n").unwrap().outputs.len(), 0);
}

#[test]
fn texts_that_store_no_state() {
    for content in ["", "7", "x\n", "7\nx\n", "7\n1 2 3 4 5 6\n", "7\n\n"] {
        assert!(parse_state(content).is_none(), "{content:?}");
    }
    let cut = state_text(&a_state());
    assert!(parse_state(&cut[..cut.len() - 1]).is_none());
}

#[test]
fn routes() {
    assert!(matches!(route(Method::Get, "/"), Route::Sync));
    assert!(matches!(route(Method::Get, "/?x=1"), Route::Sync));
    assert!(matches!(route(Method::Post, "/"), Route::NotFound));
    assert!(matches!(route(Method::Post, "/broadcast"), Route::Broadcast));
    assert!(matches!(route(Method::Get, "/broadcast"), Route::NotFound));
    assert!(matches!(route(Method::Other, "/"), Route::NotFound));
    assert!(matches!(route(Method::Get, "/other"), Route::NotFound));
}

#[test]
fn send_link_names_a_payment() {
    let sent = |url: &str| match route(Method::Get, url) {
        Route::Send { to, amount } => (to, amount),
        _ => panic!("not a payment"),
    };
    assert_eq!(sent("/send?a=4abc&p=1000"), ("4abc".to_string(), 1000));
    assert_eq!(sent("/send"), (String::new(), 0));
    assert_eq!(sent("/send?a=1&a=2&p=5&p=x"), ("2".to_string(), 0));
    assert_eq!(sent("/send?p=7&a=x=y?p=9"), ("x=y".to_string(), 7));
    assert_eq!(sent("/send?a&p"), (String::new(), 0));
}
