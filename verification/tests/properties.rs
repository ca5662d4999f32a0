use nft_contract::approval::bytes_for_approved_account_id;
use nft_contract::decimal::{share_token_id, u64_to_decimal};
use nft_contract::error::LedgerError;
use nft_contract::events::{NftMintLog, NftTransferLog};
use nft_contract::id_map::IdMap;
use nft_contract::ledger::Contract;
use nft_contract::metadata::{sample_art_metadata, sample_token_metadata, TokenMetadata};
use nft_contract::royalty::royalty_to_payout;
use nft_contract::token::Token;
use nft_contract::token_set::TokenSet;

const BYTE_COST: u128 = 10_000_000_000_000_000_000;
const AMPLE: u128 = 1_000_000_000_000_000_000_000_000;

fn id(text: &str) -> String {
    text.to_string()
}

fn royalties(entries: &[(&str, u32)]) -> IdMap<u32> {
    let mut map = IdMap::new();
    for (account, bps) in entries {
        map.insert(id(account), *bps);
    }
    map
}

fn amounts(entries: &[(&str, u128)]) -> IdMap<u128> {
    let mut map = IdMap::new();
    for (account, amount) in entries {
        map.insert(id(account), *amount);
    }
    map
}

fn ledger_with_token(owner: &str, royalty: Option<IdMap<u32>>) -> Contract {
    let mut contract = Contract::new(id(owner));
    contract
        .nft_mint(id("0"), sample_token_metadata(), id(owner), royalty)
        .unwrap();
    contract
}

fn ledger_with_artwork(shares: u64) -> Contract {
    let mut contract = Contract::new(id("alice"));
    contract
        .art_mint(id("0"), id("title"), id("artist"), id("auth"), shares, id("alice"))
        .unwrap();
    contract
}

fn member_list(set: &TokenSet) -> Vec<String> {
    (0..set.len() as usize).map(|i| set.get(i).clone()).collect()
}

#[test]
fn decimal_numerals() {
    assert_eq!(u64_to_decimal(0), "0");
    assert_eq!(u64_to_decimal(7), "7");
    assert_eq!(u64_to_decimal(10), "10");
    assert_eq!(u64_to_decimal(109), "109");
    assert_eq!(u64_to_decimal(u64::MAX), "18446744073709551615");
}

#[test]
fn decimal_agrees_with_the_standard_rendering() {
    for n in (0u64..2000).chain([u64::MAX - 1, 1u64 << 32, 999_999_999_999]) {
        assert_eq!(u64_to_decimal(n), n.to_string());
    }
}

#[test]
fn share_identifiers_join_artwork_and_index() {
    assert_eq!(share_token_id(&id("0"), 0), "0#0");
    assert_eq!(share_token_id(&id("0"), 14), "0#14");
    assert_eq!(share_token_id(&id("mona-"), 120), "mona-#120");
    assert_eq!(share_token_id(&id(""), 5), "#5");
    assert_eq!(share_token_id(&id("a#1"), 2), "a#1#2");
    assert_eq!(share_token_id(&id("9"), u64::MAX), "9#18446744073709551615");
    // the share 10 of "1" and the share 0 of "11" differ
    assert_ne!(share_token_id(&id("1"), 10), share_token_id(&id("11"), 0));
}

#[test]
fn sample_records_hold_the_fixed_values() {
    let metadata = sample_token_metadata();
    assert_eq!(metadata.title, Some(id("Olympus Mons")));
    assert_eq!(
        metadata.description,
        Some(id("The tallest mountain in the charted solar system"))
    );
    assert_eq!(metadata.copies, Some(1));
    assert_eq!(metadata.media, None);
    assert_eq!(metadata.media_hash, None);
    assert_eq!(metadata.issued_at, None);
    assert_eq!(metadata.expires_at, None);
    assert_eq!(metadata.starts_at, None);
    assert_eq!(metadata.updated_at, None);
    assert_eq!(metadata.extra, None);
    assert_eq!(metadata.reference, None);
    assert_eq!(metadata.reference_hash, None);

    let art = sample_art_metadata();
    assert_eq!(art.art_title, "Fractr_Test_Art");
    assert_eq!(art.artist_name, "blidddwangdw");
    assert_eq!(art.authenticator, "dwangdwblidd");
    assert_eq!(art.num_shares, 15);
}

#[test]
fn metadata_duplicate_is_equal() {
    let metadata = TokenMetadata {
        title: Some(id("t")),
        description: None,
        media: Some(id("https://example.org/a.png")),
        media_hash: Some(vec![1, 2, 3]),
        copies: Some(3),
        issued_at: Some(1),
        expires_at: Some(2),
        starts_at: Some(3),
        updated_at: Some(4),
        extra: Some(id("{}")),
        reference: Some(id("ref")),
        reference_hash: Some(vec![9, 8]),
    };
    assert_eq!(metadata.duplicate(), metadata);
}

#[test]
fn id_map_keeps_insertion_order() {
    let mut map: IdMap<u64> = IdMap::new();
    assert!(map.is_empty());
    assert_eq!(map.insert(id("a"), 1), None);
    assert_eq!(map.insert(id("b"), 2), None);
    assert_eq!(map.insert(id("c"), 3), None);
    assert_eq!(map.insert(id("b"), 20), Some(2));
    assert_eq!(map.len(), 3);
    assert_eq!(map.key_at(0), "a");
    assert_eq!(map.key_at(1), "b");
    assert_eq!(*map.value_at(1), 20);
    assert_eq!(map.key_at(2), "c");
    assert_eq!(map.find(&id("c")), Some(2));
    assert_eq!(map.find(&id("d")), None);
    assert_eq!(map.get(&id("a")), Some(&1));
    assert_eq!(map.get(&id("z")), None);
    assert!(map.contains_key(&id("b")));
    assert!(!map.contains_key(&id("B")));

    assert_eq!(map.remove(&id("a")), Some(1));
    assert_eq!(map.remove(&id("a")), None);
    assert_eq!(map.len(), 2);
    assert_eq!(map.key_at(0), "b");
    assert_eq!(map.key_at(1), "c");

    assert_eq!(map.replace_at(1, 30), 3);
    assert_eq!(map.get(&id("c")), Some(&30));
    assert_eq!(map.duplicate(), map);

    map.clear();
    assert!(map.is_empty());
    assert_eq!(map, IdMap::new());
}

#[test]
fn token_set_keeps_members_distinct_and_ordered() {
    let mut set = TokenSet::new();
    assert!(set.is_empty());
    assert!(set.insert(id("x")));
    assert!(set.insert(id("y")));
    assert!(!set.insert(id("x")));
    assert!(set.insert(id("z")));
    assert_eq!(set.len(), 3);
    assert_eq!(member_list(&set), vec![id("x"), id("y"), id("z")]);
    assert!(set.contains(&id("y")));
    assert_eq!(set.find(&id("z")), Some(2));

    assert!(set.remove(&id("x")));
    assert!(!set.remove(&id("x")));
    assert_eq!(member_list(&set), vec![id("y"), id("z")]);
    assert!(!set.contains(&id("x")));
}

#[test]
fn initialize_works_once() {
    let mut slot: Option<Contract> = None;
    assert_eq!(Contract::initialize(&mut slot, id("alice")), Ok(()));
    assert_eq!(slot, Some(Contract::new(id("alice"))));

    slot.as_mut()
        .unwrap()
        .nft_mint(id("0"), sample_token_metadata(), id("alice"), None)
        .unwrap();
    let before = slot.clone();
    assert_eq!(
        Contract::initialize(&mut slot, id("bob")),
        Err(LedgerError::AlreadyInitialized)
    );
    assert_eq!(slot, before);
}

#[test]
fn art_mint_makes_distinct_shares_of_the_minter() {
    for shares in [1u64, 2, 15, 120] {
        let contract = ledger_with_artwork(shares);
        let expected: Vec<String> = (0..shares).map(|i| format!("0#{}", i)).collect();

        let tokens = contract.nft_tokens(None, None);
        let listed: Vec<String> = tokens.iter().map(|t| t.token_id.clone()).collect();
        assert_eq!(listed, expected);
        let mut sorted = listed.clone();
        sorted.sort();
        sorted.dedup();
        assert_eq!(sorted.len() as u64, shares);
        assert!(tokens.iter().all(|t| t.owner_id == "alice"));
        assert!(tokens.iter().all(|t| t.metadata == sample_token_metadata()));
        assert!(tokens.iter().all(|t| t.royalty.is_empty()));

        let per_art = contract.tokens_per_art.get(&id("0")).unwrap();
        assert_eq!(per_art.len(), shares);
        assert_eq!(member_list(per_art), expected);
        let per_owner = contract.tokens_per_owner.get(&id("alice")).unwrap();
        assert_eq!(per_owner.len(), shares);
        assert_eq!(member_list(per_owner), expected);
        assert_eq!(contract.nft_total_supply(), shares as u128);
        assert_eq!(contract.nft_supply_for_owner(&id("alice")), shares as u128);
        assert_eq!(contract.art_by_id.get(&id("0")).unwrap().num_shares, shares);
    }
}

#[test]
fn art_mint_stores_the_artwork_and_reports_each_share() {
    let mut contract = Contract::new(id("alice"));
    let logs = contract
        .art_mint(
            id("mona"),
            id("Mona Lisa"),
            id("Leonardo"),
            id("Louvre"),
            3,
            id("bob"),
        )
        .unwrap();
    let art = contract.art_by_id.get(&id("mona")).unwrap();
    assert_eq!(art.art_title, "Mona Lisa");
    assert_eq!(art.artist_name, "Leonardo");
    assert_eq!(art.authenticator, "Louvre");
    assert_eq!(art.num_shares, 3);
    assert_eq!(
        logs,
        vec![
            NftMintLog { owner_id: id("bob"), token_ids: vec![id("mona#0")], memo: None },
            NftMintLog { owner_id: id("bob"), token_ids: vec![id("mona#1")], memo: None },
            NftMintLog { owner_id: id("bob"), token_ids: vec![id("mona#2")], memo: None },
        ]
    );
    let token = contract.tokens_by_id.get(&id("mona#1")).unwrap();
    assert_eq!(*token, Token::new(id("bob"), IdMap::new()));
    assert_eq!(token.next_approval_id, 0);
}

#[test]
fn art_mint_twice_is_refused_and_changes_nothing() {
    let mut contract = ledger_with_artwork(15);
    let before = contract.clone();
    assert_eq!(
        contract.art_mint(id("0"), id("other"), id("other"), id("other"), 3, id("bob")),
        Err(LedgerError::AlreadyExists)
    );
    assert_eq!(contract, before);
    assert_eq!(
        contract.art_mint(id("0"), id("other"), id("other"), id("other"), 0, id("bob")),
        Err(LedgerError::AlreadyExists)
    );
    assert_eq!(contract, before);
}

#[test]
fn art_mint_without_shares_is_refused() {
    let mut contract = Contract::new(id("alice"));
    let before = contract.clone();
    assert_eq!(
        contract.art_mint(id("0"), id("t"), id("a"), id("x"), 0, id("alice")),
        Err(LedgerError::InvalidInput)
    );
    assert_eq!(contract, before);
}

#[test]
fn art_mint_that_collides_with_a_token_changes_nothing() {
    let mut contract = Contract::new(id("alice"));
    contract
        .nft_mint(id("1#7"), sample_token_metadata(), id("bob"), None)
        .unwrap();
    let before = contract.clone();
    // the shares of artwork "1" would be "1#0" .. "1#7"
    assert_eq!(
        contract.art_mint(id("1"), id("t"), id("a"), id("x"), 8, id("alice")),
        Err(LedgerError::AlreadyExists)
    );
    assert_eq!(contract, before);
    // with seven shares nothing collides
    assert!(contract
        .art_mint(id("1"), id("t"), id("a"), id("x"), 7, id("alice"))
        .is_ok());
    assert_eq!(contract.nft_total_supply(), 8);
}

#[test]
fn two_artworks_share_the_ledger() {
    let mut contract = ledger_with_artwork(2);
    contract
        .art_mint(id("b"), id("t"), id("a"), id("x"), 3, id("bob"))
        .unwrap();
    let listed: Vec<String> = contract
        .nft_tokens(None, None)
        .iter()
        .map(|t| t.token_id.clone())
        .collect();
    assert_eq!(listed, vec![id("0#0"), id("0#1"), id("b#0"), id("b#1"), id("b#2")]);
    assert_eq!(contract.tokens_per_art.get(&id("0")).unwrap().len(), 2);
    assert_eq!(contract.tokens_per_art.get(&id("b")).unwrap().len(), 3);
    assert_eq!(contract.nft_supply_for_owner(&id("alice")), 2);
    assert_eq!(contract.nft_supply_for_owner(&id("bob")), 3);
    assert_eq!(contract.nft_supply_for_owner(&id("charlie")), 0);
}

#[test]
fn nft_mint_stores_what_it_is_given() {
    let mut contract = Contract::new(id("alice"));
    let royalty = royalties(&[("bob", 500), ("charlie", 250)]);
    let log = contract
        .nft_mint(id("t1"), sample_token_metadata(), id("danny"), Some(royalty.clone()))
        .unwrap();
    assert_eq!(
        log,
        NftMintLog { owner_id: id("danny"), token_ids: vec![id("t1")], memo: None }
    );
    let shown = contract.nft_token(&id("t1")).unwrap();
    assert_eq!(shown.token_id, "t1");
    assert_eq!(shown.owner_id, "danny");
    assert_eq!(shown.metadata, sample_token_metadata());
    assert_eq!(shown.royalty, royalty);
    assert!(shown.approved_account_ids.is_empty());
    assert_eq!(contract.tokens_by_id.get(&id("t1")).unwrap().next_approval_id, 0);
    assert_eq!(contract.nft_token(&id("t2")), None);
}

#[test]
fn nft_mint_of_a_known_token_is_refused() {
    let mut contract = ledger_with_token("alice", None);
    let before = contract.clone();
    assert_eq!(
        contract.nft_mint(id("0"), sample_token_metadata(), id("bob"), None),
        Err(LedgerError::AlreadyExists)
    );
    assert_eq!(contract, before);
}

#[test]
fn seven_royalty_recipients_are_refused() {
    let names = ["a", "b", "c", "d", "e", "f", "g"];
    let seven: Vec<(&str, u32)> = names.iter().map(|n| (*n, 100u32)).collect();
    let mut contract = Contract::new(id("alice"));
    assert_eq!(
        contract.nft_mint(id("0"), sample_token_metadata(), id("alice"), Some(royalties(&seven))),
        Err(LedgerError::InvalidInput)
    );
    assert_eq!(contract, Contract::new(id("alice")));
    // too many recipients is reported before a taken identifier
    contract
        .nft_mint(id("0"), sample_token_metadata(), id("alice"), Some(royalties(&seven[..6])))
        .unwrap();
    assert_eq!(contract.nft_token(&id("0")).unwrap().royalty.len(), 6);
    assert_eq!(
        contract.nft_mint(id("0"), sample_token_metadata(), id("alice"), Some(royalties(&seven))),
        Err(LedgerError::InvalidInput)
    );
}

#[test]
fn approval_costs_the_bytes_it_adds() {
    assert_eq!(bytes_for_approved_account_id(&id("bob")), 15);
    assert_eq!(bytes_for_approved_account_id(&id("")), 12);
    assert_eq!(bytes_for_approved_account_id(&id("é")), 14);

    let mut contract = ledger_with_token("alice", None);
    let before = contract.clone();
    assert_eq!(
        contract.nft_approve(&id("alice"), &id("0"), &id("bob"), 15 * BYTE_COST - 1, BYTE_COST),
        Err(LedgerError::InsufficientDeposit)
    );
    assert_eq!(contract, before);
    assert_eq!(
        contract.nft_approve(&id("alice"), &id("0"), &id("bob"), u128::MAX, u128::MAX),
        Err(LedgerError::InsufficientDeposit)
    );
    assert_eq!(contract, before);
    assert_eq!(
        contract.nft_approve(&id("alice"), &id("0"), &id("bob"), 15 * BYTE_COST, BYTE_COST),
        Ok(0)
    );
    // an approval that only refreshes the identifier adds no bytes
    assert_eq!(
        contract.nft_approve(&id("alice"), &id("0"), &id("bob"), 0, BYTE_COST),
        Ok(1)
    );
    // nothing is owed where storage is free
    assert_eq!(
        contract.nft_approve(&id("alice"), &id("0"), &id("charlie"), 0, 0),
        Ok(2)
    );
}

#[test]
fn approve_then_revoke() {
    let mut contract = ledger_with_token("alice", None);
    assert_eq!(
        contract.nft_approve(&id("alice"), &id("0"), &id("charlie"), AMPLE, BYTE_COST),
        Ok(0)
    );
    assert_eq!(
        contract.nft_approve(&id("alice"), &id("0"), &id("bob"), AMPLE, BYTE_COST),
        Ok(1)
    );
    assert_eq!(contract.nft_is_approved(&id("0"), &id("bob"), None), Ok(true));
    assert_eq!(contract.nft_is_approved(&id("0"), &id("bob"), Some(1)), Ok(true));
    assert_eq!(contract.nft_is_approved(&id("0"), &id("bob"), Some(0)), Ok(false));
    assert_eq!(contract.nft_is_approved(&id("0"), &id("charlie"), Some(0)), Ok(true));

    assert_eq!(contract.nft_revoke(&id("alice"), &id("0"), &id("bob")), Ok(()));
    assert_eq!(contract.nft_is_approved(&id("0"), &id("bob"), None), Ok(false));
    assert_eq!(contract.nft_is_approved(&id("0"), &id("bob"), Some(1)), Ok(false));
    assert_eq!(contract.nft_is_approved(&id("0"), &id("charlie"), None), Ok(true));
    assert_eq!(contract.nft_is_approved(&id("0"), &id("charlie"), Some(0)), Ok(true));

    // revoking an account that is not a delegate changes nothing
    let before = contract.clone();
    assert_eq!(contract.nft_revoke(&id("alice"), &id("0"), &id("danny")), Ok(()));
    assert_eq!(contract, before);
    // the counter went on
    assert_eq!(contract.tokens_by_id.get(&id("0")).unwrap().next_approval_id, 2);
}

#[test]
fn approval_identifiers_are_never_reused() {
    let mut contract = ledger_with_token("alice", None);
    for expected in 0u64..5 {
        assert_eq!(
            contract.nft_approve(&id("alice"), &id("0"), &id("bob"), AMPLE, BYTE_COST),
            Ok(expected)
        );
        contract.nft_revoke(&id("alice"), &id("0"), &id("bob")).unwrap();
    }
    contract.nft_approve(&id("alice"), &id("0"), &id("bob"), AMPLE, BYTE_COST).unwrap();
    contract.nft_approve(&id("alice"), &id("0"), &id("charlie"), AMPLE, BYTE_COST).unwrap();
    // a refreshed delegate keeps its place
    assert_eq!(
        contract.nft_approve(&id("alice"), &id("0"), &id("bob"), AMPLE, BYTE_COST),
        Ok(7)
    );
    let shown = contract.nft_token(&id("0")).unwrap();
    let mut expected: IdMap<u64> = IdMap::new();
    expected.insert(id("bob"), 7);
    expected.insert(id("charlie"), 6);
    assert_eq!(shown.approved_account_ids, expected);
    contract.nft_revoke_all(&id("alice"), &id("0")).unwrap();
    assert_eq!(contract.tokens_by_id.get(&id("0")).unwrap().next_approval_id, 8);
}

#[test]
fn approvals_are_the_owners_to_give() {
    let mut contract = ledger_with_token("alice", None);
    let before = contract.clone();
    assert_eq!(
        contract.nft_approve(&id("bob"), &id("0"), &id("bob"), AMPLE, BYTE_COST),
        Err(LedgerError::Unauthorized)
    );
    assert_eq!(
        contract.nft_approve(&id("alice"), &id("1"), &id("bob"), AMPLE, BYTE_COST),
        Err(LedgerError::NotFound)
    );
    assert_eq!(
        contract.nft_revoke(&id("bob"), &id("0"), &id("bob")),
        Err(LedgerError::Unauthorized)
    );
    assert_eq!(
        contract.nft_revoke(&id("alice"), &id("1"), &id("bob")),
        Err(LedgerError::NotFound)
    );
    assert_eq!(
        contract.nft_revoke_all(&id("bob"), &id("0")),
        Err(LedgerError::Unauthorized)
    );
    assert_eq!(
        contract.nft_revoke_all(&id("alice"), &id("1")),
        Err(LedgerError::NotFound)
    );
    assert_eq!(
        contract.nft_is_approved(&id("1"), &id("bob"), None),
        Err(LedgerError::NotFound)
    );
    assert_eq!(contract, before);
}

#[test]
fn an_exhausted_approval_counter_is_reported() {
    let mut contract = ledger_with_token("alice", None);
    let position = contract.tokens_by_id.find(&id("0")).unwrap();
    let mut token = Token::new(id("alice"), IdMap::new());
    token.next_approval_id = u64::MAX;
    contract.tokens_by_id.replace_at(position, token);
    let before = contract.clone();
    assert_eq!(
        contract.nft_approve(&id("alice"), &id("0"), &id("bob"), AMPLE, BYTE_COST),
        Err(LedgerError::InvalidState)
    );
    assert_eq!(contract, before);
}

#[test]
fn revoke_all_clears_every_delegate() {
    let mut contract = ledger_with_token("alice", None);
    for delegate in ["bob", "charlie", "danny"] {
        contract
            .nft_approve(&id("alice"), &id("0"), &id(delegate), AMPLE, BYTE_COST)
            .unwrap();
    }
    assert_eq!(contract.nft_revoke_all(&id("alice"), &id("0")), Ok(()));
    for (index, delegate) in ["bob", "charlie", "danny", "alice"].iter().enumerate() {
        assert_eq!(contract.nft_is_approved(&id("0"), &id(delegate), None), Ok(false));
        assert_eq!(
            contract.nft_is_approved(&id("0"), &id(delegate), Some(index as u64)),
            Ok(false)
        );
    }
    assert!(contract.nft_token(&id("0")).unwrap().approved_account_ids.is_empty());
    assert_eq!(contract.tokens_by_id.get(&id("0")).unwrap().next_approval_id, 3);
}

#[test]
fn transfer_moves_the_token_and_clears_approvals() {
    let mut contract = ledger_with_token("alice", Some(royalties(&[("danny", 100)])));
    contract
        .nft_mint(id("1"), sample_token_metadata(), id("alice"), None)
        .unwrap();
    contract.nft_approve(&id("alice"), &id("0"), &id("charlie"), AMPLE, BYTE_COST).unwrap();
    contract.nft_approve(&id("alice"), &id("1"), &id("charlie"), AMPLE, BYTE_COST).unwrap();

    let log = contract
        .internal_transfer(&id("alice"), &id("bob"), &id("0"), None, Some(id("gift")))
        .unwrap();
    assert_eq!(
        log,
        NftTransferLog {
            authorized_id: None,
            old_owner_id: id("alice"),
            new_owner_id: id("bob"),
            token_ids: vec![id("0")],
            memo: Some(id("gift")),
        }
    );
    assert_eq!(member_list(contract.tokens_per_owner.get(&id("alice")).unwrap()), vec![id("1")]);
    assert_eq!(member_list(contract.tokens_per_owner.get(&id("bob")).unwrap()), vec![id("0")]);
    let token = contract.tokens_by_id.get(&id("0")).unwrap();
    assert_eq!(token.owner_id, "bob");
    assert!(token.approved_account_ids.is_empty());
    assert_eq!(token.next_approval_id, 1);
    assert_eq!(token.royalty, royalties(&[("danny", 100)]));
    assert_eq!(contract.nft_is_approved(&id("0"), &id("charlie"), None), Ok(false));
    assert_eq!(contract.nft_is_approved(&id("0"), &id("charlie"), Some(0)), Ok(false));
    // the other token keeps its delegate
    assert_eq!(contract.nft_is_approved(&id("1"), &id("charlie"), Some(0)), Ok(true));
    assert_eq!(contract.nft_total_supply(), 2);

    // the last token leaves: the account has no entry any more
    contract
        .internal_transfer(&id("alice"), &id("bob"), &id("1"), None, None)
        .unwrap();
    assert_eq!(contract.tokens_per_owner.get(&id("alice")), None);
    assert_eq!(
        member_list(contract.tokens_per_owner.get(&id("bob")).unwrap()),
        vec![id("0"), id("1")]
    );
}

#[test]
fn a_delegate_transfers_for_the_owner() {
    let mut contract = ledger_with_token("alice", None);
    contract.nft_approve(&id("alice"), &id("0"), &id("danny"), AMPLE, BYTE_COST).unwrap();
    contract.nft_approve(&id("alice"), &id("0"), &id("bob"), AMPLE, BYTE_COST).unwrap();
    let before = contract.clone();

    // not a delegate
    assert_eq!(
        contract.internal_transfer(&id("charlie"), &id("charlie"), &id("0"), None, None),
        Err(LedgerError::Unauthorized)
    );
    assert_eq!(
        contract.internal_transfer(&id("charlie"), &id("bob"), &id("0"), Some(1), None),
        Err(LedgerError::Unauthorized)
    );
    // a delegate under the wrong approval
    assert_eq!(
        contract.internal_transfer(&id("bob"), &id("charlie"), &id("0"), Some(0), None),
        Err(LedgerError::Unauthorized)
    );
    // a delegate to itself
    assert_eq!(
        contract.internal_transfer(&id("bob"), &id("bob"), &id("0"), Some(1), None),
        Err(LedgerError::InvalidInput)
    );
    assert_eq!(contract, before);

    let log = contract
        .internal_transfer(&id("bob"), &id("charlie"), &id("0"), Some(1), None)
        .unwrap();
    assert_eq!(
        log,
        NftTransferLog {
            authorized_id: Some(id("bob")),
            old_owner_id: id("alice"),
            new_owner_id: id("charlie"),
            token_ids: vec![id("0")],
            memo: None,
        }
    );
    assert_eq!(contract.tokens_by_id.get(&id("0")).unwrap().owner_id, "charlie");
    assert_eq!(contract.tokens_per_owner.get(&id("alice")), None);
    assert_eq!(contract.tokens_per_owner.get(&id("bob")), None);
    assert_eq!(
        member_list(contract.tokens_per_owner.get(&id("charlie")).unwrap()),
        vec![id("0")]
    );
    assert_eq!(contract.nft_is_approved(&id("0"), &id("bob"), None), Ok(false));
    assert_eq!(contract.nft_is_approved(&id("0"), &id("danny"), None), Ok(false));
    // the next approval continues the count
    assert_eq!(
        contract.nft_approve(&id("charlie"), &id("0"), &id("alice"), AMPLE, BYTE_COST),
        Ok(2)
    );
}

#[test]
fn a_delegate_needs_no_approval_identifier() {
    let mut contract = ledger_with_token("alice", None);
    contract.nft_approve(&id("alice"), &id("0"), &id("bob"), AMPLE, BYTE_COST).unwrap();
    assert!(contract
        .internal_transfer(&id("bob"), &id("charlie"), &id("0"), None, None)
        .is_ok());
    assert_eq!(contract.tokens_by_id.get(&id("0")).unwrap().owner_id, "charlie");
}

#[test]
fn transfers_that_are_refused_change_nothing() {
    let mut contract = ledger_with_token("alice", None);
    let before = contract.clone();
    assert_eq!(
        contract.internal_transfer(&id("alice"), &id("bob"), &id("9"), None, None),
        Err(LedgerError::NotFound)
    );
    assert_eq!(
        contract.internal_transfer(&id("alice"), &id("alice"), &id("0"), None, None),
        Err(LedgerError::InvalidInput)
    );
    assert_eq!(
        contract.internal_transfer(&id("bob"), &id("bob"), &id("0"), None, None),
        Err(LedgerError::Unauthorized)
    );
    assert_eq!(contract, before);
}

#[test]
fn index_helpers_list_and_unlist() {
    let mut contract = Contract::new(id("alice"));
    assert_eq!(
        contract.internal_remove_token_from_owner(&id("alice"), &id("x")),
        Err(LedgerError::NotFound)
    );
    contract.internal_add_token_to_owner(&id("alice"), &id("x"));
    contract.internal_add_token_to_owner(&id("alice"), &id("y"));
    contract.internal_add_token_to_owner(&id("alice"), &id("x"));
    assert_eq!(
        member_list(contract.tokens_per_owner.get(&id("alice")).unwrap()),
        vec![id("x"), id("y")]
    );
    assert_eq!(contract.internal_remove_token_from_owner(&id("alice"), &id("z")), Ok(()));
    assert_eq!(contract.internal_remove_token_from_owner(&id("alice"), &id("x")), Ok(()));
    assert_eq!(
        member_list(contract.tokens_per_owner.get(&id("alice")).unwrap()),
        vec![id("y")]
    );
    assert_eq!(contract.internal_remove_token_from_owner(&id("alice"), &id("y")), Ok(()));
    assert_eq!(contract.tokens_per_owner.get(&id("alice")), None);
    // of tokens that are not stored nothing is shown
    contract.internal_add_token_to_owner(&id("alice"), &id("x"));
    assert_eq!(contract.nft_tokens_for_owner(&id("alice"), None, None), vec![]);
    assert_eq!(contract.nft_supply_for_owner(&id("alice")), 1);
}

#[test]
fn royalty_shares_round_down() {
    assert_eq!(royalty_to_payout(5000, 10), 5);
    assert_eq!(royalty_to_payout(5000, 11), 5);
    assert_eq!(royalty_to_payout(3333, 100), 33);
    assert_eq!(royalty_to_payout(1, 9999), 0);
    assert_eq!(royalty_to_payout(1, 10000), 1);
    assert_eq!(royalty_to_payout(0, 12345), 0);
    assert_eq!(royalty_to_payout(10000, 12345), 12345);
    assert_eq!(royalty_to_payout(10000, u128::MAX), u128::MAX);
    assert_eq!(royalty_to_payout(1, u128::MAX), u128::MAX / 10000);
    assert_eq!(
        royalty_to_payout(9999, u128::MAX),
        340248338684246369617028269971025034633
    );
}

#[test]
fn payout_gives_the_remainder_to_the_owner() {
    let contract = ledger_with_token("owner", Some(royalties(&[("a", 5000)])));
    assert_eq!(
        contract.nft_payout(&id("0"), 10, 2).unwrap().payout,
        amounts(&[("a", 5), ("owner", 5)])
    );
    assert_eq!(
        contract.nft_payout(&id("0"), 11, 2).unwrap().payout,
        amounts(&[("a", 5), ("owner", 6)])
    );
    assert_eq!(
        contract.nft_payout(&id("0"), 0, 2).unwrap().payout,
        amounts(&[("a", 0), ("owner", 0)])
    );
    assert_eq!(
        contract.nft_payout(&id("0"), u128::MAX, 2).unwrap().payout,
        amounts(&[("a", u128::MAX / 2), ("owner", u128::MAX / 2 + 1)])
    );
}

#[test]
fn payout_amounts_add_up_to_the_balance() {
    let royalty = royalties(&[("a", 3333), ("b", 3333), ("c", 3333), ("d", 1)]);
    let contract = ledger_with_token("owner", Some(royalty));
    for balance in [0u128, 1, 2, 3, 7, 10, 9999, 10000, 10001, 123_456_789, u128::MAX - 1, u128::MAX] {
        let plan = contract.nft_payout(&id("0"), balance, 5).unwrap().payout;
        assert_eq!(plan.len(), 5);
        let mut total: u128 = 0;
        for i in 0..plan.len() {
            total = total.checked_add(*plan.value_at(i)).unwrap();
        }
        assert_eq!(total, balance);
        assert_eq!(*plan.get(&id("a")).unwrap(), royalty_to_payout(3333, balance));
        assert_eq!(*plan.get(&id("d")).unwrap(), royalty_to_payout(1, balance));
    }
}

#[test]
fn payout_merges_the_owners_royalty_with_the_remainder() {
    let royalty = royalties(&[("owner", 1000), ("b", 2000)]);
    let contract = ledger_with_token("owner", Some(royalty));
    assert_eq!(
        contract.nft_payout(&id("0"), 100, 3).unwrap().payout,
        amounts(&[("owner", 80), ("b", 20)])
    );
}

#[test]
fn payout_is_refused_beyond_the_recipient_budget() {
    let royalty = royalties(&[("a", 100), ("b", 100)]);
    let contract = ledger_with_token("owner", Some(royalty));
    assert_eq!(contract.nft_payout(&id("0"), 100, 0), Err(LedgerError::PayoutTooLarge));
    assert_eq!(contract.nft_payout(&id("0"), 100, 2), Err(LedgerError::PayoutTooLarge));
    assert!(contract.nft_payout(&id("0"), 100, 3).is_ok());
    assert_eq!(contract.nft_payout(&id("1"), 100, 3), Err(LedgerError::NotFound));

    let plain = ledger_with_token("owner", None);
    assert_eq!(plain.nft_payout(&id("0"), 100, 0), Err(LedgerError::PayoutTooLarge));
    assert_eq!(
        plain.nft_payout(&id("0"), 100, 1).unwrap().payout,
        amounts(&[("owner", 100)])
    );
}

fn ledger_with_stored_royalties(owner: &str, royalty: IdMap<u32>) -> Contract {
    let mut contract = ledger_with_token(owner, None);
    let position = contract.tokens_by_id.find(&id("0")).unwrap();
    contract.tokens_by_id.replace_at(position, Token::new(id(owner), royalty));
    contract
}

#[test]
fn payout_is_refused_when_royalties_exceed_the_whole() {
    // no mint stores such royalties; the record is put into the store directly
    let contract = ledger_with_stored_royalties("owner", royalties(&[("a", 6000), ("b", 4001)]));
    assert!(!contract.is_sound());
    assert_eq!(contract.nft_payout(&id("0"), 100, 10), Err(LedgerError::InvalidState));
    assert_eq!(contract.nft_payout(&id("0"), 100, 2), Err(LedgerError::PayoutTooLarge));

    let huge = ledger_with_stored_royalties(
        "owner",
        royalties(&[("a", u32::MAX), ("b", u32::MAX), ("c", u32::MAX)]),
    );
    assert_eq!(huge.nft_payout(&id("0"), 100, 10), Err(LedgerError::InvalidState));

    let whole = ledger_with_token("owner", Some(royalties(&[("a", 6000), ("b", 4000)])));
    assert!(whole.is_sound());
    assert_eq!(
        whole.nft_payout(&id("0"), 101, 10).unwrap().payout,
        amounts(&[("a", 60), ("b", 40), ("owner", 1)])
    );
}

#[test]
fn royalties_above_the_whole_are_refused_at_mint() {
    let mut contract = Contract::new(id("alice"));
    assert_eq!(
        contract.nft_mint(
            id("0"),
            sample_token_metadata(),
            id("alice"),
            Some(royalties(&[("bob", 6000), ("charlie", 6000)])),
        ),
        Err(LedgerError::InvalidInput)
    );
    assert_eq!(contract, Contract::new(id("alice")));
    assert_eq!(
        contract.nft_mint(
            id("0"),
            sample_token_metadata(),
            id("alice"),
            Some(royalties(&[("bob", 10000), ("charlie", 1)])),
        ),
        Err(LedgerError::InvalidInput)
    );
    assert_eq!(
        contract.nft_mint(
            id("0"),
            sample_token_metadata(),
            id("alice"),
            Some(royalties(&[("bob", u32::MAX), ("charlie", u32::MAX), ("danny", 2)])),
        ),
        Err(LedgerError::InvalidInput)
    );
    assert_eq!(contract, Contract::new(id("alice")));

    // the whole itself may be given away
    contract
        .nft_mint(
            id("0"),
            sample_token_metadata(),
            id("alice"),
            Some(royalties(&[("bob", 6000), ("charlie", 4000)])),
        )
        .unwrap();
    let stored = contract.tokens_by_id.get(&id("0")).unwrap();
    assert_eq!(stored.royalty, royalties(&[("bob", 6000), ("charlie", 4000)]));
    assert!(stored.is_well_formed());
    assert!(contract.is_sound());
    // royalties above the whole are refused before a taken identifier
    assert_eq!(
        contract.nft_mint(
            id("0"),
            sample_token_metadata(),
            id("alice"),
            Some(royalties(&[("bob", 6000), ("charlie", 4001)])),
        ),
        Err(LedgerError::InvalidInput)
    );
}

#[test]
fn artworks_with_similar_names_do_not_clash() {
    let mut contract = Contract::new(id("alice"));
    contract
        .art_mint(id("1"), id("t"), id("a"), id("v"), 11, id("alice"))
        .unwrap();
    contract
        .art_mint(id("11"), id("t"), id("a"), id("v"), 1, id("alice"))
        .unwrap();
    assert_eq!(contract.nft_total_supply(), 12);
    assert_eq!(contract.tokens_per_art.get(&id("1")).unwrap().len(), 11);
    assert_eq!(contract.tokens_per_art.get(&id("11")).unwrap().len(), 1);
    assert_eq!(
        member_list(contract.tokens_per_art.get(&id("11")).unwrap()),
        vec![id("11#0")]
    );
    assert_eq!(contract.tokens_per_art.get(&id("1")).unwrap().get(10), "1#10");

    // an artwork whose name holds the separator
    contract
        .art_mint(id("1#1"), id("t"), id("a"), id("v"), 2, id("bob"))
        .unwrap();
    contract
        .art_mint(id("1#"), id("t"), id("a"), id("v"), 12, id("bob"))
        .unwrap();
    assert_eq!(contract.nft_total_supply(), 26);
    assert_eq!(contract.nft_supply_for_owner(&id("alice")), 12);
    assert_eq!(contract.nft_supply_for_owner(&id("bob")), 14);
    assert!(contract.is_sound());
    let mut all: Vec<String> = contract
        .nft_tokens(None, None)
        .into_iter()
        .map(|t| t.token_id)
        .collect();
    all.sort();
    all.dedup();
    assert_eq!(all.len(), 26);
}

#[test]
fn listings_are_paged() {
    let contract = ledger_with_artwork(15);
    let ids = |tokens: Vec<nft_contract::token::JsonToken>| -> Vec<String> {
        tokens.into_iter().map(|t| t.token_id).collect()
    };
    assert_eq!(
        ids(contract.nft_tokens(Some(10), None)),
        vec![id("0#10"), id("0#11"), id("0#12"), id("0#13"), id("0#14")]
    );
    assert_eq!(
        ids(contract.nft_tokens(Some(3), Some(4))),
        vec![id("0#3"), id("0#4"), id("0#5"), id("0#6")]
    );
    assert_eq!(ids(contract.nft_tokens(None, Some(2))), vec![id("0#0"), id("0#1")]);
    assert_eq!(ids(contract.nft_tokens(Some(13), Some(10))), vec![id("0#13"), id("0#14")]);
    assert_eq!(ids(contract.nft_tokens(Some(15), Some(4))), Vec::<String>::new());
    assert_eq!(ids(contract.nft_tokens(Some(u128::MAX), Some(u64::MAX))), Vec::<String>::new());
    assert_eq!(ids(contract.nft_tokens(Some(0), Some(0))), Vec::<String>::new());
    assert_eq!(contract.nft_tokens(Some(0), Some(u64::MAX)).len(), 15);

    assert_eq!(
        ids(contract.nft_tokens_for_owner(&id("alice"), Some(12), Some(2))),
        vec![id("0#12"), id("0#13")]
    );
    assert_eq!(
        ids(contract.nft_tokens_for_owner(&id("alice"), Some(14), None)),
        vec![id("0#14")]
    );
    assert_eq!(contract.nft_tokens_for_owner(&id("bob"), None, None), vec![]);
}

#[test]
fn minting_an_artwork_counts_fifteen() {
    let contract = ledger_with_artwork(15);
    assert_eq!(contract.nft_total_supply(), 15);
    let owned = contract.nft_tokens_for_owner(&id("alice"), None, None);
    assert_eq!(owned.len(), 15);
    assert!(owned.iter().all(|t| t.owner_id == "alice"));
}

#[test]
fn approve_then_transfer_to_a_third_account() {
    let mut contract = Contract::new(id("x"));
    contract
        .nft_mint(id("0"), sample_token_metadata(), id("x"), None)
        .unwrap();
    let granted = contract
        .nft_approve(&id("x"), &id("0"), &id("y"), AMPLE, BYTE_COST)
        .unwrap();
    contract
        .internal_transfer(&id("x"), &id("z"), &id("0"), None, None)
        .unwrap();
    assert_eq!(contract.nft_is_approved(&id("0"), &id("y"), None), Ok(false));
    assert_eq!(contract.nft_is_approved(&id("0"), &id("y"), Some(granted)), Ok(false));
    assert_eq!(contract.nft_is_approved(&id("0"), &id("y"), Some(7)), Ok(false));
    let of_z: Vec<String> = contract
        .nft_tokens_for_owner(&id("z"), None, None)
        .into_iter()
        .map(|t| t.token_id)
        .collect();
    assert_eq!(of_z, vec![id("0")]);
    assert!(contract
        .nft_tokens_for_owner(&id("x"), None, None)
        .iter()
        .all(|t| t.token_id != "0"));
}

#[test]
fn a_ledger_made_by_the_operations_is_sound() {
    let mut contract = ledger_with_artwork(12);
    contract
        .nft_mint(id("x"), sample_token_metadata(), id("bob"), Some(royalties(&[("a", 1)])))
        .unwrap();
    contract.nft_approve(&id("bob"), &id("x"), &id("alice"), AMPLE, BYTE_COST).unwrap();
    contract
        .internal_transfer(&id("alice"), &id("bob"), &id("x"), None, None)
        .unwrap();
    contract
        .internal_transfer(&id("alice"), &id("bob"), &id("0#11"), None, None)
        .unwrap();
    assert!(contract.is_well_formed());
    assert!(contract.is_sound());
    assert!(Contract::new(id("alice")).is_sound());
}

#[test]
fn a_ledger_with_a_broken_index_is_not_sound() {
    // a token that its owner's set does not list
    let mut contract = ledger_with_token("alice", None);
    contract.internal_remove_token_from_owner(&id("alice"), &id("0")).unwrap();
    assert!(contract.is_well_formed());
    assert!(!contract.is_sound());

    // a listed token that is not stored
    let mut contract = ledger_with_token("alice", None);
    contract.internal_add_token_to_owner(&id("alice"), &id("ghost"));
    assert!(!contract.is_sound());

    // a token listed under an account that does not own it
    let mut contract = ledger_with_token("alice", None);
    contract.internal_add_token_to_owner(&id("bob"), &id("0"));
    assert!(!contract.is_sound());

    // a token without metadata
    let mut contract = ledger_with_token("alice", None);
    contract.token_metadata_by_id.clear();
    assert!(!contract.is_sound());

    // an artwork whose shares are not all listed
    let mut contract = ledger_with_artwork(3);
    let position = contract.tokens_per_art.find(&id("0")).unwrap();
    let mut shares = TokenSet::new();
    shares.insert(id("0#0"));
    shares.insert(id("0#1"));
    contract.tokens_per_art.replace_at(position, shares);
    assert!(!contract.is_sound());

    // an artwork whose shares are listed out of order
    let mut contract = ledger_with_artwork(2);
    let position = contract.tokens_per_art.find(&id("0")).unwrap();
    let mut shares = TokenSet::new();
    shares.insert(id("0#1"));
    shares.insert(id("0#0"));
    contract.tokens_per_art.replace_at(position, shares);
    assert!(!contract.is_sound());

    // an artwork without its entry in the share index
    let mut contract = ledger_with_artwork(2);
    contract.tokens_per_art.clear();
    assert!(!contract.is_sound());
}

#[test]
fn a_malformed_token_is_found_out() {
    let mut token = Token::new(id("alice"), royalties(&[("a", 1)]));
    assert!(token.is_well_formed());
    token.approved_account_ids.insert(id("bob"), 0);
    // the approval in use was never issued
    assert!(!token.is_well_formed());
    token.next_approval_id = 1;
    assert!(token.is_well_formed());

    let names = ["a", "b", "c", "d", "e", "f", "g"];
    let seven: Vec<(&str, u32)> = names.iter().map(|n| (*n, 1u32)).collect();
    assert!(!Token::new(id("alice"), royalties(&seven)).is_well_formed());
    assert!(Token::new(id("alice"), royalties(&seven[..6])).is_well_formed());
    assert!(Token::new(id("alice"), royalties(&[("a", 9999), ("b", 1)])).is_well_formed());
    assert!(!Token::new(id("alice"), royalties(&[("a", 9999), ("b", 2)])).is_well_formed());
    assert!(!Token::new(id("alice"), royalties(&[("a", u32::MAX), ("b", 1)])).is_well_formed());

    let mut contract = ledger_with_token("alice", None);
    let position = contract.tokens_by_id.find(&id("0")).unwrap();
    contract.tokens_by_id.replace_at(position, Token::new(id("alice"), royalties(&seven)));
    assert!(!contract.is_well_formed());
    assert!(!contract.is_sound());

    let mut map: IdMap<u64> = IdMap::new();
    map.insert(id("k"), 1);
    map.insert(id("l"), 2);
    assert!(map.keys_unique());
    let mut set = TokenSet::new();
    set.insert(id("k"));
    set.insert(id("l"));
    assert!(set.members_distinct());
}
