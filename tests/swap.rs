use sol_streamer::description::match_description;
use sol_streamer::parser::{assemble_transaction, decode_event, transaction_from_event, SwapEvent};
use sol_streamer::quantity::{amount_quantity, near_zero, quantities_match, to_json_number};
use sol_streamer::text::parse_u64;
use sol_streamer::{
    find_mint_by_token_amount, parse_description, parse_transaction, TokenTransfer, Transaction,
};

fn transfer_json(amount: &str, mint: &str) -> String {
    format!(
        "{{\"fromTokenAccount\":\"fa\",\"fromUserAccount\":\"fu\",\"mint\":\"{}\",\"toTokenAccount\":\"ta\",\"toUserAccount\":\"tu\",\"tokenAmount\":{},\"tokenStandard\":\"Fungible\"}}",
        mint, amount
    )
}

fn payload(description: &str, transfers: &[String]) -> String {
    format!(
        "[{{\"description\":\"{}\",\"tokenTransfers\":[{}],\"timestamp\":1700000000,\"slot\":100,\"source\":\"AMM_X\",\"signature\":\"SIG1\"}}]",
        description,
        transfers.join(",")
    )
}

fn transfer(amount: &str, mint: &str) -> TokenTransfer {
    TokenTransfer {
        from_token_account: "fa".to_string(),
        from_user_account: "fu".to_string(),
        mint: mint.to_string(),
        to_token_account: "ta".to_string(),
        to_user_account: "tu".to_string(),
        token_amount: amount.to_string(),
        token_standard: "Fungible".to_string(),
    }
}

fn same_record(a: &Transaction, b: &Transaction) -> bool {
    a.signature == b.signature
        && a.block_slot == b.block_slot
        && a.timestamp == b.timestamp
        && a.amm == b.amm
        && a.sender == b.sender
        && a.from_amount == b.from_amount
        && a.to_amount == b.to_amount
        && a.from_token == b.from_token
        && a.to_token == b.to_token
}

#[test]
fn description_example_reads_back() {
    let m = parse_description("Alice9xQ swapped 1.5 SOL for 42.0 USDC").unwrap();
    assert_eq!(m.sender, "Alice9xQ");
    assert_eq!(m.from_amount, "1.5");
    assert_eq!(m.from_token, "SOL");
    assert_eq!(m.to_amount, "42.0");
    assert_eq!(m.to_token, "USDC");
}

#[test]
fn description_inside_longer_text() {
    let m = parse_description("Note: Bob swapped 2 SOL for 10 USDC on AMM_X").unwrap();
    assert_eq!(m.sender, "Bob");
    assert_eq!(m.from_amount, "2.0");
    assert_eq!(m.to_amount, "10.0");
    assert_eq!(m.to_token, "USDC");
}

#[test]
fn description_leftmost_sentence_wins() {
    let m = parse_description("Bob swapped 1 A for 2 B; Carl swapped 3 C for 4 D").unwrap();
    assert_eq!(m.sender, "Bob");
    assert_eq!(m.from_token, "A");
    assert_eq!(m.to_token, "B");
}

#[test]
fn description_symbol_run_is_greedy() {
    let m = match_description("Bob swapped 1 SOL for 2 USDCx").unwrap();
    assert_eq!(m.to_token, "USDC");
    assert_eq!(m.from_amount, "1");
}

#[test]
fn description_rejects_non_sentences() {
    assert!(parse_description("Alice traded 1.5 SOL for 42.0 USDC").is_none());
    assert!(parse_description("Alice swapped 1.5 sol for 42.0 USDC").is_none());
    assert!(parse_description("Alice Swapped 1.5 SOL for 42.0 USDC").is_none());
    assert!(parse_description("Alice swapped abc SOL for 42.0 USDC").is_none());
    assert!(parse_description("Alice swapped 1,5 SOL for 42.0 USDC").is_none());
    assert!(parse_description("").is_none());
}

#[test]
fn description_unreadable_amount_spoils_the_match() {
    assert!(match_description("Alice swapped 1.2.3 SOL for 4 USDC").is_some());
    assert!(parse_description("Alice swapped 1.2.3 SOL for 4 USDC").is_none());
    assert!(parse_description("Alice swapped . SOL for 4 USDC").is_none());
}

#[test]
fn amounts_become_json_numbers() {
    assert_eq!(to_json_number("1.").unwrap(), "1");
    assert_eq!(to_json_number(".5").unwrap(), "0.5");
    assert_eq!(to_json_number("007.50").unwrap(), "7.50");
    assert_eq!(to_json_number("000").unwrap(), "0");
    assert!(to_json_number(".").is_none());
    assert!(to_json_number("1.2.3").is_none());
    assert!(to_json_number("").is_none());
}

#[test]
fn amounts_round_to_shortest_text() {
    assert_eq!(amount_quantity("007.50").unwrap(), "7.5");
    assert_eq!(amount_quantity("42").unwrap(), "42.0");
    assert_eq!(amount_quantity("1.00000000000000001").unwrap(), "1.0");
    assert!(amount_quantity("1.2.3").is_none());
}

#[test]
fn unsigned_integers() {
    assert_eq!(parse_u64("1700000000"), Some(1700000000));
    assert_eq!(parse_u64("+7"), Some(7));
    assert_eq!(parse_u64("18446744073709551615"), Some(u64::MAX));
    assert_eq!(parse_u64("18446744073709551616"), None);
    assert_eq!(parse_u64("1700000000.0"), None);
    assert_eq!(parse_u64("\"100\""), None);
    assert_eq!(parse_u64("-1"), None);
    assert_eq!(parse_u64("+"), None);
    assert_eq!(parse_u64(""), None);
}

#[test]
fn lookup_takes_first_equal_quantity() {
    let ts = vec![transfer("1.5", "M1"), transfer("42.0", "M2"), transfer("1.5", "M3")];
    assert_eq!(find_mint_by_token_amount(&ts, &"1.5".to_string()).unwrap(), "M1");
    assert_eq!(find_mint_by_token_amount(&ts, &"42.0".to_string()).unwrap(), "M2");
    assert!(find_mint_by_token_amount(&ts, &"3.0".to_string()).is_none());
    assert!(find_mint_by_token_amount(&[], &"1.5".to_string()).is_none());
}

#[test]
fn signed_zeros_are_the_same_quantity() {
    assert!(quantities_match(&"-0.0".to_string(), &"0.0".to_string()));
    assert!(!quantities_match(&"0.0".to_string(), &"1e-7".to_string()));
    let ts = vec![transfer("-0.0", "Z")];
    assert_eq!(find_mint_by_token_amount(&ts, &"0.0".to_string()).unwrap(), "Z");
}

#[test]
fn quantities_below_epsilon_count_as_zero() {
    let zero = "0.0".to_string();
    assert!(quantities_match(&"1e-20".to_string(), &zero));
    assert!(quantities_match(&"2.2e-16".to_string(), &zero));
    assert!(quantities_match(&"-1.5e-17".to_string(), &"3e-300".to_string()));
    assert!(!quantities_match(&"2.220446049250313e-16".to_string(), &zero));
    assert!(!quantities_match(&"3e-16".to_string(), &zero));
    assert!(!quantities_match(&"0.0001".to_string(), &zero));
    assert!(near_zero(&"0.00000000000000000001".to_string()));
    assert!(!near_zero(&"1e+5".to_string()));
    assert!(!near_zero(&"abc".to_string()));
    let ts = vec![transfer("1e-20", "TINY")];
    assert_eq!(find_mint_by_token_amount(&ts, &zero).unwrap(), "TINY");
    let tx_ts = [transfer_json("1e-20", "TINY"), transfer_json("10.0", "USDC_MINT")];
    let tx = parse_transaction(&payload("Bob swapped 0 SOL for 10.0 USDC", &tx_ts)).unwrap();
    assert_eq!(tx.from_token, "TINY");
}

#[test]
fn only_the_first_event_is_read() {
    let ts = [transfer_json("2.0", "SOL_MINT"), transfer_json("10.0", "USDC_MINT")];
    let one = payload("Bob swapped 2.0 SOL for 10.0 USDC", &ts);
    let two = format!("{},{{\"description\":\"other\"}}]", &one[..one.len() - 1]);
    let a = parse_transaction(&one).unwrap();
    let b = parse_transaction(&two).unwrap();
    assert!(same_record(&a, &b));
    let event = decode_event(&two).unwrap();
    assert_eq!(event.description.unwrap(), "Bob swapped 2.0 SOL for 10.0 USDC");
    assert_eq!(event.timestamp.unwrap(), "1700000000");
    assert_eq!(event.token_transfers.unwrap().len(), 2);
}

#[test]
fn transfer_list_resolves_both_mints() {
    let ts = [
        transfer_json("1.5", "M1"),
        transfer_json("42.0", "M2"),
        transfer_json("3.0", "M3"),
    ];
    let tx = parse_transaction(&payload("Alice9xQ swapped 1.5 SOL for 42.0 USDC", &ts)).unwrap();
    assert_eq!(tx.from_token, "M1");
    assert_eq!(tx.to_token, "M2");
}

#[test]
fn unmatched_outgoing_amount_gives_nothing() {
    let ts = [transfer_json("1.5", "M1"), transfer_json("42.0", "M2")];
    assert!(parse_transaction(&payload("Alice swapped 2.5 SOL for 42.0 USDC", &ts)).is_none());
    assert!(parse_transaction(&payload("Alice swapped 1.5 SOL for 41.0 USDC", &ts)).is_none());
}

#[test]
fn assembling_twice_gives_equal_records() {
    let ts = [transfer_json("2.0", "SOL_MINT"), transfer_json("10.0", "USDC_MINT")];
    let input = payload("Bob swapped 2.0 SOL for 10.0 USDC", &ts);
    let a = parse_transaction(&input).unwrap();
    let b = parse_transaction(&input).unwrap();
    assert!(same_record(&a, &b));
    let event = decode_event(&input).unwrap();
    let c = transaction_from_event(&event).unwrap();
    let d = transaction_from_event(&event).unwrap();
    assert!(same_record(&c, &d));
    assert!(same_record(&a, &c));
}

#[test]
fn equal_numbers_match_and_others_do_not() {
    let ts = [transfer_json("1.5", "M1"), transfer_json("42", "M2")];
    let tx = parse_transaction(&payload("Alice swapped 1.50 SOL for 42.0 USDC", &ts)).unwrap();
    assert_eq!(tx.from_token, "M1");
    assert_eq!(tx.to_token, "M2");
    let near = [transfer_json("1.5000000001", "M1"), transfer_json("42", "M2")];
    assert!(parse_transaction(&payload("Alice swapped 1.5 SOL for 42 USDC", &near)).is_none());
    let rounded = [transfer_json("0.1", "M1"), transfer_json("42", "M2")];
    let tx = parse_transaction(&payload("Alice swapped 0.10000000000000000001 SOL for 42 USDC", &rounded)).unwrap();
    assert_eq!(tx.from_token, "M1");
}

#[test]
fn end_to_end_record() {
    let ts = [transfer_json("2.0", "SOL_MINT"), transfer_json("10.0", "USDC_MINT")];
    let tx = parse_transaction(&payload("Bob swapped 2.0 SOL for 10.0 USDC", &ts)).unwrap();
    assert_eq!(tx.sender, "Bob");
    assert_eq!(tx.from_amount, "2.0");
    assert_eq!(tx.to_amount, "10.0");
    assert_eq!(tx.from_token, "SOL_MINT");
    assert_eq!(tx.to_token, "USDC_MINT");
    assert_eq!(tx.block_slot, 100);
    assert_eq!(tx.timestamp, 1700000000);
    assert_eq!(tx.amm, "AMM_X");
    assert_eq!(tx.signature, "SIG1");
}

#[test]
fn same_transfer_may_serve_both_sides() {
    let ts = [transfer_json("5", "M")];
    let tx = parse_transaction(&payload("Bob swapped 5 A for 5 B", &ts)).unwrap();
    assert_eq!(tx.from_token, "M");
    assert_eq!(tx.to_token, "M");
}

#[test]
fn malformed_documents_give_nothing() {
    let ts = [transfer_json("2.0", "SOL_MINT"), transfer_json("10.0", "USDC_MINT")];
    assert!(parse_transaction("not json").is_none());
    assert!(parse_transaction("[]").is_none());
    assert!(parse_transaction("{\"description\":\"Bob swapped 2.0 SOL for 10.0 USDC\"}").is_none());
    let good = payload("Bob swapped 2.0 SOL for 10.0 USDC", &ts);
    assert!(parse_transaction(&good.replace("\"slot\":100", "\"slot\":\"100\"")).is_none());
    assert!(parse_transaction(&good.replace("\"timestamp\":1700000000", "\"timestamp\":1.5")).is_none());
    assert!(parse_transaction(&good.replace(",\"source\":\"AMM_X\"", "")).is_none());
    assert!(parse_transaction(&good.replace("\"signature\":\"SIG1\"", "\"signature\":1")).is_none());
    assert!(parse_transaction(&good.replace("\"description\"", "\"memo\"")).is_none());
}

#[test]
fn one_bad_transfer_spoils_the_list() {
    let bad = "{\"mint\":\"X\",\"tokenAmount\":7.0}".to_string();
    let ts = [transfer_json("2.0", "SOL_MINT"), transfer_json("10.0", "USDC_MINT"), bad];
    assert!(parse_transaction(&payload("Bob swapped 2.0 SOL for 10.0 USDC", &ts)).is_none());
    let text_amount = [transfer_json("\"2.0\"", "SOL_MINT"), transfer_json("10.0", "USDC_MINT")];
    assert!(parse_transaction(&payload("Bob swapped 2.0 SOL for 10.0 USDC", &text_amount)).is_none());
}

#[test]
fn assembly_from_plain_fields() {
    let meta = parse_description("Bob swapped 2.0 SOL for 10.0 USDC").unwrap();
    let event = SwapEvent {
        description: None,
        token_transfers: Some(vec![transfer("2.0", "S"), transfer("10.0", "U")]),
        timestamp: Some("5".to_string()),
        slot: Some("6".to_string()),
        source: Some("amm".to_string()),
        signature: Some("sig".to_string()),
    };
    let tx = assemble_transaction(meta, &event).unwrap();
    assert_eq!(tx.from_token, "S");
    assert_eq!(tx.to_token, "U");
    assert_eq!(tx.timestamp, 5);
    assert_eq!(tx.block_slot, 6);
    assert!(transaction_from_event(&event).is_none());
}
