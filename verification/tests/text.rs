//! Numbers and keys as text, and requests made of text.
use richat::geyser::CommitmentLevel;
use richat::request::{
    get_commitment, AccountsFilterLamports, AccountsFilterOneof, ActionSubscribe,
    ActionSubscribeAccounts, ArgsCommitment, RequestError, SubscribeRequestAccountsDataSlice,
    SubscribeRequestFilterBlocks, SubscribeRequestFilterSlots, SubscribeRequestFilterTransactions,
};
use richat::text::{decimal_text, format_thousands, parse_u64, split_once, trim};

#[test]
fn thousands_are_grouped() {
    for (value, text) in [
        (0, "0"),
        (7, "7"),
        (999, "999"),
        (1_000, "1,000"),
        (1_002, "1,002"),
        (12_345, "12,345"),
        (123_456, "123,456"),
        (1_000_000, "1,000,000"),
        (u64::MAX, "18,446,744,073,709,551,615"),
    ] {
        assert_eq!(format_thousands(value), text);
        assert_eq!(format_thousands(value).replace(',', ""), value.to_string());
        assert_eq!(decimal_text(value), value.to_string());
    }
}

#[test]
fn numbers_are_parsed_as_by_std() {
    for text in [
        "0", "42", "+42", "0042", "18446744073709551615", "18446744073709551616", "", "+", "-1", "-0",
        "++1", " 1", "1 ", "1_000", "4a", "99999999999999999999999", "\u{0661}",
    ] {
        assert_eq!(parse_u64(text), text.parse::<u64>().ok(), "{text:?}");
    }
}

#[test]
fn texts_are_split_and_trimmed_as_by_std() {
    for text in [
        "", ",", "a,b", "a,b,c", ",a", "a,", "ab", "\u{e9},\u{e9}", " a , b ", "\t\n x \u{3000}",
        "\u{a0}y\u{2028}", "\u{200b}z", "   ",
    ] {
        assert_eq!(split_once(text, ','), text.split_once(','), "{text:?}");
        assert_eq!(trim(text), text.trim(), "{text:?}");
    }
    for c in 0..=0x3001u32 {
        if let Some(c) = char::from_u32(c) {
            let text = format!("{c}a{c}");
            assert_eq!(trim(&text), text.trim(), "{text:?}");
        }
    }
}

fn transactions() -> SubscribeRequestFilterTransactions {
    SubscribeRequestFilterTransactions {
        vote: None,
        failed: Some(false),
        signature: None,
        account_include: vec!["include".to_owned()],
        account_exclude: vec![],
        account_required: vec![],
    }
}

fn action() -> ActionSubscribe {
    ActionSubscribe {
        accounts: true,
        accounts_nonempty_txn_signature: Some(true),
        accounts_account: vec!["one".to_owned()],
        accounts_owner: vec!["owner".to_owned()],
        accounts_bytes: vec!["4, abc ".to_owned()],
        accounts_datasize: Some(165),
        accounts_token_account_state: true,
        accounts_lamports: vec!["eq:1".to_owned(), "gt:2".to_owned()],
        accounts_data_slice: vec!["0,40".to_owned()],
        slots: true,
        slots_filter_by_commitment: Some(true),
        slots_interslot_updates: None,
        transactions: true,
        transactions_filter: transactions(),
        transactions_status: false,
        transactions_status_filter: transactions(),
        entries: true,
        blocks: false,
        blocks_filter: SubscribeRequestFilterBlocks {
            account_include: vec![],
            include_transactions: Some(true),
            include_accounts: None,
            include_entries: None,
        },
        blocks_meta: false,
        from_slot: Some(7),
        ping: Some(3),
        stats: true,
        verify_encoding: false,
    }
}

#[test]
fn a_request_is_made() {
    let commitment = get_commitment(Some(ArgsCommitment::Finalized));
    let (request, stats, verify_encoding) = action()
        .get_subscribe_request(commitment, vec!["two".to_owned()])
        .expect("request");
    assert!(stats && !verify_encoding);
    assert_eq!(request.accounts.len(), 1);
    let (name, accounts) = &request.accounts[0];
    assert_eq!(name, "client");
    assert_eq!(accounts.account, ["one", "two"]);
    assert_eq!(accounts.owner, ["owner"]);
    assert_eq!(accounts.nonempty_txn_signature, Some(true));
    assert_eq!(accounts.filters.len(), 5);
    assert!(matches!(
        &accounts.filters[0],
        AccountsFilterOneof::Bytes { offset: 4, data } if data == "abc"
    ));
    assert!(matches!(accounts.filters[1], AccountsFilterOneof::Datasize(165)));
    assert!(matches!(accounts.filters[2], AccountsFilterOneof::TokenAccountState(true)));
    assert!(matches!(
        accounts.filters[3],
        AccountsFilterOneof::Lamports(AccountsFilterLamports::Eq(1))
    ));
    assert!(matches!(
        accounts.filters[4],
        AccountsFilterOneof::Lamports(AccountsFilterLamports::Gt(2))
    ));
    assert_eq!(
        request.slots,
        [(
            "client".to_owned(),
            SubscribeRequestFilterSlots {
                filter_by_commitment: Some(true),
                interslot_updates: None,
            }
        )]
    );
    assert_eq!(request.transactions.len(), 1);
    assert_eq!(request.transactions[0].1.account_include, ["include"]);
    assert!(request.transactions_status.is_empty());
    assert_eq!(request.entry, ["client"]);
    assert!(request.blocks.is_empty() && request.blocks_meta.is_empty());
    assert_eq!(request.commitment, Some(2));
    assert_eq!(
        request.accounts_data_slice,
        [SubscribeRequestAccountsDataSlice { offset: 0, length: 40 }]
    );
    assert_eq!((request.ping, request.from_slot), (Some(3), Some(7)));
    assert_eq!(get_commitment(None), Some(CommitmentLevel::Processed));
}

fn failure(change: fn(&mut ActionSubscribe)) -> String {
    let mut action = action();
    change(&mut action);
    action.get_subscribe_request(None, vec![]).expect_err("no request").message()
}

#[test]
fn a_request_fails() {
    assert_eq!(failure(|a| a.accounts_bytes.push("1".to_owned())), "invalid memcmp");
    assert_eq!(failure(|a| a.accounts_bytes.push("x,1".to_owned())), "invalid offset");
    assert_eq!(failure(|a| a.accounts_lamports.push("eq".to_owned())), "invalid lamports");
    assert_eq!(
        failure(|a| a.accounts_lamports.push("eq:x".to_owned())),
        "invalid lamports value: x"
    );
    assert_eq!(
        failure(|a| a.accounts_lamports.push("ge:1".to_owned())),
        "invalid lamports filter: ge"
    );
    assert_eq!(failure(|a| a.accounts_data_slice.push("1".to_owned())), "invalid data_slice");
    assert_eq!(failure(|a| a.accounts_data_slice.push("1,y".to_owned())), "invalid data_slice");
    // bytes come before lamports, and both before slices
    assert_eq!(
        failure(|a| {
            a.accounts_data_slice.push("1".to_owned());
            a.accounts_lamports.push("eq".to_owned());
            a.accounts_bytes.push("1".to_owned());
        }),
        "invalid memcmp"
    );
    // filters of accounts do not matter where accounts are not asked for
    let mut action = action();
    action.accounts = false;
    action.accounts_bytes.push("1".to_owned());
    let (request, _, _) = action.get_subscribe_request(None, vec![]).expect("request");
    assert!(request.accounts.is_empty());
    assert_eq!(request.commitment, None);
}

fn subscribe_accounts(account: &str) -> ActionSubscribeAccounts {
    ActionSubscribeAccounts {
        ping: None,
        from_slot: None,
        filter: "name".to_owned(),
        account: vec![account.to_owned()],
        stats: false,
        verify_encoding: true,
    }
}

#[test]
fn keys_are_parsed() {
    let keys = [
        "28Dncoh8nmzXYEGLUcBA5SUw5WDwDBn15uUCwrWBbyuu",
        "11111111111111111111111111111111",
        "TokenkegQfeZyiNwAJbNbGKPFXCWuBvf9Ss623VQ5DA",
    ];
    for key in keys {
        let (request, stats, verify_encoding) = subscribe_accounts(key)
            .get_subscribe_request(vec![keys[0].to_owned()])
            .expect("request");
        assert_eq!(request.add.len(), 2);
        assert_eq!(
            request.add[0],
            key.parse::<solana_pubkey::Pubkey>().unwrap().to_bytes().to_vec()
        );
        assert_eq!(
            request.add[1],
            keys[0].parse::<solana_pubkey::Pubkey>().unwrap().to_bytes().to_vec()
        );
        assert!(request.remove.is_empty());
        assert_eq!(request.filter, "name");
        assert!(!stats && verify_encoding);
    }
    for key in ["", "1", "0", "1111111111111111111111111111111", "l1111111111111111111111111111111"] {
        assert!(matches!(
            subscribe_accounts(key).get_subscribe_request(vec![]),
            Err(RequestError::InvalidPubkey(text)) if text == key
        ));
    }
}
