use nft_contract::error::LedgerError;
use nft_contract::id_map::IdMap;
use nft_contract::ledger::Contract;
use nft_contract::metadata::{sample_art_metadata, sample_token_metadata};

const MIN_REQUIRED_APPROVAL_YOCTO: u128 = 170000000000000000000;
const STORAGE_BYTE_COST: u128 = 10_000_000_000_000_000_000;

fn accounts(index: usize) -> String {
    near_sdk::test_utils::accounts(index).to_string()
}

#[test]
fn test_new_account_contract() {
    let contract = Contract::new(accounts(1));
    let contract_nft_tokens = contract.nft_tokens(Some(0), None);
    assert_eq!(contract_nft_tokens.len(), 0);
}

#[test]
fn test_mint_nft() {
    let mut contract = Contract::new(accounts(0));

    contract
        .art_mint(
            "0".to_string(),
            "Fractr_Test_Art".to_string(),
            "blidddwangdw".to_string(),
            "dwangdwblidd".to_string(),
            15u64,
            accounts(0),
        )
        .unwrap();

    // the artwork data is stored in the map
    assert!(contract.art_by_id.contains_key(&"0".to_string()));

    // 15 shares were minted and stored
    let contract_nft_tokens = contract.nft_tokens(Some(0), None);
    assert_eq!(contract_nft_tokens.len(), sample_art_metadata().num_shares as usize);

    // the data in each token is as expected
    for tok in contract_nft_tokens {
        assert_eq!(tok.owner_id, accounts(0));
        assert_eq!(tok.approved_account_ids, IdMap::new());
    }

    // each token is stored in tokens_per_owner
    assert_eq!(
        contract.tokens_per_owner.get(&accounts(0)).unwrap().len(),
        sample_art_metadata().num_shares
    );

    // each token is listed under the artwork
    assert_eq!(
        contract.tokens_per_art.get(&"0".to_string()).unwrap().len(),
        sample_art_metadata().num_shares
    );
}

#[test]
fn test_internal_transfer() {
    let mut contract = Contract::new(accounts(0));
    let token_id = "0".to_string();
    contract
        .nft_mint(token_id.clone(), sample_token_metadata(), accounts(0), None)
        .unwrap();

    contract
        .internal_transfer(&accounts(0), &accounts(1), &token_id.clone(), Some(1), None)
        .unwrap();

    let tokens = contract.nft_tokens_for_owner(&accounts(1), Some(0), None);
    assert_ne!(
        tokens.len(),
        0,
        "Token not correctly created and/or sent to second account"
    );
    let token = &tokens[0];
    assert_eq!(token.token_id, token_id);
    assert_eq!(token.owner_id, accounts(1));
    assert_eq!(token.metadata.title, sample_token_metadata().title);
    assert_eq!(
        token.metadata.description,
        sample_token_metadata().description
    );
    assert_eq!(token.metadata.media, sample_token_metadata().media);
    assert_eq!(token.approved_account_ids, IdMap::new());
}

#[test]
fn test_nft_approve() {
    let mut contract = Contract::new(accounts(0));
    let token_id = "0".to_string();
    contract
        .nft_mint(token_id.clone(), sample_token_metadata(), accounts(0), None)
        .unwrap();

    contract
        .nft_approve(
            &accounts(0),
            &token_id,
            &accounts(1),
            MIN_REQUIRED_APPROVAL_YOCTO,
            STORAGE_BYTE_COST,
        )
        .unwrap();

    assert!(contract
        .nft_is_approved(&token_id, &accounts(1), None)
        .unwrap());
}

#[test]
fn test_nft_revoke() {
    let mut contract = Contract::new(accounts(0));
    let token_id = "0".to_string();
    contract
        .nft_mint(token_id.clone(), sample_token_metadata(), accounts(0), None)
        .unwrap();

    // alice approves bob
    contract
        .nft_approve(
            &accounts(0),
            &token_id,
            &accounts(1),
            MIN_REQUIRED_APPROVAL_YOCTO,
            STORAGE_BYTE_COST,
        )
        .unwrap();

    // alice revokes bob
    contract
        .nft_revoke(&accounts(0), &token_id, &accounts(1))
        .unwrap();
    assert!(!contract
        .nft_is_approved(&token_id, &accounts(1), None)
        .unwrap());
}

#[test]
fn test_revoke_all() {
    let mut contract = Contract::new(accounts(0));
    let token_id = "0".to_string();
    contract
        .nft_mint(token_id.clone(), sample_token_metadata(), accounts(0), None)
        .unwrap();

    // alice approves bob
    contract
        .nft_approve(
            &accounts(0),
            &token_id,
            &accounts(1),
            MIN_REQUIRED_APPROVAL_YOCTO,
            STORAGE_BYTE_COST,
        )
        .unwrap();

    // alice revokes everybody
    contract.nft_revoke_all(&accounts(0), &token_id).unwrap();
    assert!(!contract
        .nft_is_approved(&token_id, &accounts(1), Some(1))
        .unwrap());
}

#[test]
fn test_internal_remove_token_from_owner() {
    let mut contract = Contract::new(accounts(0));
    let token_id = "0".to_string();
    contract
        .nft_mint(token_id.clone(), sample_token_metadata(), accounts(0), None)
        .unwrap();

    let contract_nft_tokens_before = contract.nft_tokens_for_owner(&accounts(0), None, None);
    assert_eq!(contract_nft_tokens_before.len(), 1);

    contract
        .internal_remove_token_from_owner(&accounts(0), &token_id)
        .unwrap();
    let contract_nft_tokens_after = contract.nft_tokens_for_owner(&accounts(0), None, None);
    assert_eq!(contract_nft_tokens_after.len(), 0);
}

#[test]
fn test_nft_payout() {
    let mut contract = Contract::new(accounts(0));
    let token_id = "0".to_string();
    contract
        .nft_mint(token_id.clone(), sample_token_metadata(), accounts(0), None)
        .unwrap();

    // alice approves bob
    contract
        .nft_approve(
            &accounts(0),
            &token_id,
            &accounts(1),
            MIN_REQUIRED_APPROVAL_YOCTO,
            STORAGE_BYTE_COST,
        )
        .unwrap();

    let payout = contract.nft_payout(&token_id, 10, 1).unwrap();
    let mut expected: IdMap<u128> = IdMap::new();
    expected.insert(accounts(0), 10);
    assert_eq!(payout.payout, expected);
}

#[test]
fn test_nft_total_supply() {
    let mut contract = Contract::new(accounts(0));
    let token_id = "0".to_string();
    contract
        .nft_mint(token_id.clone(), sample_token_metadata(), accounts(0), None)
        .unwrap();

    let total_supply = contract.nft_total_supply();
    assert_eq!(total_supply, 1);
}

#[test]
fn an_error_is_reported_not_raised() {
    let mut contract = Contract::new(accounts(0));
    assert_eq!(
        contract.nft_is_approved(&"0".to_string(), &accounts(1), None),
        Err(LedgerError::NotFound)
    );
    assert_eq!(
        contract.nft_revoke(&accounts(0), &"0".to_string(), &accounts(1)),
        Err(LedgerError::NotFound)
    );
}

#[test]
fn the_test_accounts_are_alice_and_bob() {
    assert_eq!(accounts(0), "alice");
    assert_eq!(accounts(1), "bob");
}
