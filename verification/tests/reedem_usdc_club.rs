//! Members redeem their distance credit for a share of the pool once the
//! period of the club is over.

use run_club::{Address, RunClubContract, WithdrawalRule};

#[test]
fn test_tc005_redeem_km_tokens_for_usdc_equal_distribution() {
    let mut contract = RunClubContract::initialize();

    let organizer = Address::from_str("organizer-a");
    let member_b = Address::from_str("member-b");
    let member_c = Address::from_str("member-c");

    let club_name = String::from("Clube Alpha");
    let usdc_per_km = 1i128;
    let withdrawal_rule = WithdrawalRule::Equal;
    let duration_days = 30u32;

    let mut now = 0u64;
    let club_id = contract
        .create_club(now, &organizer, &club_name, usdc_per_km, withdrawal_rule, duration_days)
        .unwrap();

    contract.activate(club_id, &organizer).unwrap();
    let usdc_amount = 100i128;
    contract.deposit_usdc(club_id, &organizer, usdc_amount).unwrap();

    contract.add_member(club_id, &member_b).unwrap();
    contract.add_member(club_id, &member_c).unwrap();

    contract.add_km_tokens(club_id, &member_b, 5i128).unwrap();

    let club = contract.get_club(club_id).unwrap();
    assert_eq!(club.is_active, true);
    assert_eq!(club.usdc_deposited, 100i128);
    assert_eq!(club.withdrawal_rule, WithdrawalRule::Equal);

    let member_b_km = contract.get_user_km_tokens(&member_b, club_id);
    let member_c_km = contract.get_user_km_tokens(&member_c, club_id);
    assert_eq!(member_b_km, 5i128);
    assert_eq!(member_c_km, 0i128);

    assert_eq!(contract.is_club_period_ended(now, club_id), Ok(false));

    now = club.month_end_timestamp + 1;

    assert_eq!(contract.is_club_period_ended(now, club_id), Ok(true));

    let (km_tokens, usdc_reward, period_ended) = contract.get_redemption_info(now, club_id, &member_b).unwrap();
    assert_eq!(km_tokens, 5i128);
    assert_eq!(period_ended, true);
    assert_eq!(usdc_reward, 100i128);

    let redeemed_amount = contract.redeem_usdc(now, club_id, &member_b).unwrap();
    assert_eq!(redeemed_amount, 100i128);

    let member_b_km_after = contract.get_user_km_tokens(&member_b, club_id);
    assert_eq!(member_b_km_after, 0i128);

    let club_after = contract.get_club(club_id).unwrap();
    assert_eq!(club_after.usdc_deposited, 0i128);

    let member_c_km_after = contract.get_user_km_tokens(&member_c, club_id);
    assert_eq!(member_c_km_after, 0i128);
}

#[test]
fn test_tc005_redeem_with_multiple_members_equal_distribution() {
    let mut contract = RunClubContract::initialize();

    let organizer = Address::from_str("organizer-a");
    let member_b = Address::from_str("member-b");
    let member_c = Address::from_str("member-c");

    let club_name = String::from("Clube Beta");
    let club_id = contract
        .create_club(0, &organizer, &club_name, 1i128, WithdrawalRule::Equal, 30u32)
        .unwrap();

    contract.activate(club_id, &organizer).unwrap();
    contract.deposit_usdc(club_id, &organizer, 100i128).unwrap();
    contract.add_member(club_id, &member_b).unwrap();
    contract.add_member(club_id, &member_c).unwrap();

    contract.add_km_tokens(club_id, &member_b, 5i128).unwrap();
    contract.add_km_tokens(club_id, &member_c, 3i128).unwrap();

    let club = contract.get_club(club_id).unwrap();
    let now = club.month_end_timestamp + 1;

    let (_, reward_b, _) = contract.get_redemption_info(now, club_id, &member_b).unwrap();
    let (_, reward_c, _) = contract.get_redemption_info(now, club_id, &member_c).unwrap();
    assert_eq!(reward_b, 50i128);
    assert_eq!(reward_c, 50i128);

    let redeemed_b = contract.redeem_usdc(now, club_id, &member_b).unwrap();
    let redeemed_c = contract.redeem_usdc(now, club_id, &member_c).unwrap();

    assert_eq!(redeemed_b, 50i128);
    assert_eq!(redeemed_c, 50i128);

    assert_eq!(contract.get_user_km_tokens(&member_b, club_id), 0i128);
    assert_eq!(contract.get_user_km_tokens(&member_c, club_id), 0i128);

    let final_club = contract.get_club(club_id).unwrap();
    assert_eq!(final_club.usdc_deposited, 0i128);
}

#[test]
fn test_tc005_redeem_with_unlimited_distribution() {
    let mut contract = RunClubContract::initialize();

    let organizer = Address::from_str("organizer-a");
    let member_b = Address::from_str("member-b");
    let member_c = Address::from_str("member-c");

    let club_name = String::from("Clube Gamma");
    let club_id = contract
        .create_club(0, &organizer, &club_name, 1i128, WithdrawalRule::Unlimited, 30u32)
        .unwrap();

    contract.activate(club_id, &organizer).unwrap();
    contract.deposit_usdc(club_id, &organizer, 100i128).unwrap();
    contract.add_member(club_id, &member_b).unwrap();
    contract.add_member(club_id, &member_c).unwrap();

    contract.add_km_tokens(club_id, &member_b, 8i128).unwrap();
    contract.add_km_tokens(club_id, &member_c, 2i128).unwrap();

    let club = contract.get_club(club_id).unwrap();
    let now = club.month_end_timestamp + 1;

    let (_, reward_b, _) = contract.get_redemption_info(now, club_id, &member_b).unwrap();
    let (_, reward_c, _) = contract.get_redemption_info(now, club_id, &member_c).unwrap();
    assert_eq!(reward_b, 80i128);
    assert_eq!(reward_c, 20i128);

    let redeemed_b = contract.redeem_usdc(now, club_id, &member_b).unwrap();
    assert_eq!(redeemed_b, 80i128);

    assert_eq!(contract.get_user_km_tokens(&member_b, club_id), 0i128);
    let club_after = contract.get_club(club_id).unwrap();
    assert_eq!(club_after.usdc_deposited, 20i128);
}

#[test]
#[should_panic(expected = "Club period has not ended yet")]
fn test_tc005_cannot_redeem_before_period_ends() {
    let mut contract = RunClubContract::initialize();

    let organizer = Address::from_str("organizer-a");
    let member_b = Address::from_str("member-b");

    let club_name = String::from("Clube Delta");
    let club_id = contract
        .create_club(0, &organizer, &club_name, 1i128, WithdrawalRule::Equal, 30u32)
        .unwrap();

    contract.activate(club_id, &organizer).unwrap();
    contract.deposit_usdc(club_id, &organizer, 100i128).unwrap();
    contract.add_member(club_id, &member_b).unwrap();
    contract.add_km_tokens(club_id, &member_b, 5i128).unwrap();

    if let Err(error) = contract.redeem_usdc(0, club_id, &member_b) {
        panic!("{}", error.message());
    }
}

#[test]
#[should_panic(expected = "User has no KM tokens to redeem")]
fn test_tc005_cannot_redeem_without_km_tokens() {
    let mut contract = RunClubContract::initialize();

    let organizer = Address::from_str("organizer-a");
    let member_b = Address::from_str("member-b");

    let club_name = String::from("Clube Epsilon");
    let club_id = contract
        .create_club(0, &organizer, &club_name, 1i128, WithdrawalRule::Equal, 30u32)
        .unwrap();

    contract.activate(club_id, &organizer).unwrap();
    contract.deposit_usdc(club_id, &organizer, 100i128).unwrap();
    contract.add_member(club_id, &member_b).unwrap();

    let club = contract.get_club(club_id).unwrap();
    let now = club.month_end_timestamp + 1;

    if let Err(error) = contract.redeem_usdc(now, club_id, &member_b) {
        panic!("{}", error.message());
    }
}
