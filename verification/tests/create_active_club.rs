//! An organizer creates a club, activates it, and two members join.

use run_club::{Address, RunClubContract, WithdrawalRule};

#[test]
fn test_tc001_create_activate_and_add_members_to_club() {
    let mut contract = RunClubContract::initialize();

    let organizer = Address::from_str("organizer-a");
    let member_b = Address::from_str("member-b");
    let member_c = Address::from_str("member-c");

    let club_name = String::from("Clube Alpha");
    let usdc_per_km = 1i128;
    let withdrawal_rule = WithdrawalRule::Equal;
    let duration_days = 30u32;

    let club_id = contract
        .create_club(0, &organizer, &club_name, usdc_per_km, withdrawal_rule, duration_days)
        .unwrap();
    assert_eq!(club_id, 1u64);

    let club = contract.get_club(club_id).unwrap();
    assert_eq!(club.id, 1u64);
    assert_eq!(club.name, club_name);
    assert_eq!(club.organizer, organizer);
    assert_eq!(club.usdc_deposited, 0i128);
    assert_eq!(club.usdc_per_km, usdc_per_km);
    assert_eq!(club.withdrawal_rule, withdrawal_rule);
    assert_eq!(club.is_active, false);
    assert_eq!(club.members.len(), 0);

    contract.activate(club_id, &organizer).unwrap();

    let club_after_activation = contract.get_club(club_id).unwrap();
    assert_eq!(club_after_activation.is_active, true);

    let active_clubs = contract.get_active_clubs();
    assert_eq!(active_clubs.len(), 1);
    assert_eq!(*active_clubs.get(0).unwrap(), club_id);

    contract.add_member(club_id, &member_b).unwrap();
    contract.add_member(club_id, &member_c).unwrap();

    let final_club = contract.get_club(club_id).unwrap();
    assert_eq!(final_club.name, club_name);
    assert_eq!(final_club.is_active, true);

    let active_clubs_final = contract.get_active_clubs();
    assert!(active_clubs_final.contains(&club_id));

    let members = contract.get_members(club_id).unwrap();
    assert_eq!(members.len(), 2);
    assert!(members.contains(&member_b));
    assert!(members.contains(&member_c));
}
