//! A member of an active club runs and is credited the distance.

use run_club::{Address, RunClubContract, WithdrawalRule};

#[test]
fn test_tc002_member_runs_and_earns_km_tokens() {
    let mut contract = RunClubContract::initialize();

    let organizer = Address::from_str("organizer-a");
    let member_b = Address::from_str("member-b");

    let club_name = String::from("Clube Alpha");
    let usdc_per_km = 1i128;
    let withdrawal_rule = WithdrawalRule::Equal;
    let duration_days = 30u32;

    let club_id = contract
        .create_club(0, &organizer, &club_name, usdc_per_km, withdrawal_rule, duration_days)
        .unwrap();

    contract.activate(club_id, &organizer).unwrap();

    let usdc_amount = 100i128;
    contract.deposit_usdc(club_id, &organizer, usdc_amount).unwrap();

    contract.add_member(club_id, &member_b).unwrap();

    let club = contract.get_club(club_id).unwrap();
    assert_eq!(club.is_active, true);
    assert_eq!(club.usdc_deposited, 100i128);
    assert_eq!(club.name, club_name);

    let members = contract.get_members(club_id).unwrap();
    assert!(members.contains(&member_b));

    let initial_km_tokens = contract.get_user_km_tokens(&member_b, club_id);
    assert_eq!(initial_km_tokens, 0i128);

    let km_run = 5i128;
    contract.add_km_tokens(club_id, &member_b, km_run).unwrap();

    let final_km_tokens = contract.get_user_km_tokens(&member_b, club_id);
    assert_eq!(final_km_tokens, 5i128);
    assert_eq!(final_km_tokens, km_run);

    let updated_club = contract.get_club(club_id).unwrap();
    assert_eq!(updated_club.is_active, true);
    assert_eq!(updated_club.usdc_deposited, 100i128);
    assert_eq!(updated_club.usdc_per_km, 1i128);

    let post_condition_tokens = contract.get_user_km_tokens(&member_b, club_id);
    assert_eq!(post_condition_tokens, 5i128);

    let final_members = contract.get_members(club_id).unwrap();
    assert!(final_members.contains(&member_b));
    assert_eq!(final_members.len(), 1);
}

#[test]
fn test_tc002_multiple_runs_accumulate_km_tokens() {
    let mut contract = RunClubContract::initialize();

    let organizer = Address::from_str("organizer-a");
    let member_b = Address::from_str("member-b");

    let club_name = String::from("Clube Alpha");
    let club_id = contract
        .create_club(0, &organizer, &club_name, 1i128, WithdrawalRule::Equal, 30u32)
        .unwrap();

    contract.activate(club_id, &organizer).unwrap();
    contract.deposit_usdc(club_id, &organizer, 100i128).unwrap();
    contract.add_member(club_id, &member_b).unwrap();

    contract.add_km_tokens(club_id, &member_b, 3i128).unwrap();
    assert_eq!(contract.get_user_km_tokens(&member_b, club_id), 3i128);

    contract.add_km_tokens(club_id, &member_b, 2i128).unwrap();
    assert_eq!(contract.get_user_km_tokens(&member_b, club_id), 5i128);

    contract.add_km_tokens(club_id, &member_b, 4i128).unwrap();
    assert_eq!(contract.get_user_km_tokens(&member_b, club_id), 9i128);
}

#[test]
#[should_panic(expected = "User is not a member of this club")]
fn test_tc002_non_member_cannot_earn_km_tokens() {
    let mut contract = RunClubContract::initialize();

    let organizer = Address::from_str("organizer-a");
    let non_member = Address::from_str("not-a-member");

    let club_name = String::from("Clube Alpha");
    let club_id = contract
        .create_club(0, &organizer, &club_name, 1i128, WithdrawalRule::Equal, 30u32)
        .unwrap();

    contract.activate(club_id, &organizer).unwrap();
    contract.deposit_usdc(club_id, &organizer, 100i128).unwrap();

    if let Err(error) = contract.add_km_tokens(club_id, &non_member, 5i128) {
        panic!("{}", error.message());
    }
}
