use frona_server::models::ChannelStatus;
use frona_server::pairing::{generate_pair_code, pair_code_from, Pairing, UserAddress};

fn idle() -> Pairing {
    Pairing {
        status: ChannelStatus::Disconnected,
        user_address: None,
    }
}

#[test]
fn redeeming_the_issued_code_pairs_the_sender() {
    let mut p = idle();
    p.initiate("ABC123".into(), 100);
    assert_eq!(p.status, ChannelStatus::Pairing);
    assert!(!p.try_redeem("+1555", "wrong", 110));
    assert_eq!(p.status, ChannelStatus::Pairing);
    assert!(p.try_redeem("+1555", "  ABC123 ", 120));
    assert_eq!(p.status, ChannelStatus::Connected);
    let ua = p.user_address.as_ref().unwrap();
    assert_eq!(ua.address.as_deref(), Some("+1555"));
    assert_eq!(ua.paired_at, Some(120));
    assert!(ua.pairing_code.is_none());
}

#[test]
fn nothing_redeems_without_a_pairing_in_progress() {
    let mut p = idle();
    assert!(!p.try_redeem("+1555", "ABC123", 1));
    assert!(p.user_address.is_none());
}

#[test]
fn revert_keeps_a_prior_address() {
    let mut p = Pairing {
        status: ChannelStatus::Connected,
        user_address: Some(UserAddress {
            address: Some("+1000".into()),
            pairing_code: None,
            pairing_initiated_at: None,
            paired_at: Some(5),
        }),
    };
    p.initiate("XYZ789".into(), 50);
    p.cancel();
    assert_eq!(p.status, ChannelStatus::Connected);
    let ua = p.user_address.as_ref().unwrap();
    assert_eq!(ua.address.as_deref(), Some("+1000"));
    assert_eq!(ua.paired_at, Some(5));
    assert!(ua.pairing_code.is_none());
}

#[test]
fn revert_without_address_disconnects() {
    let mut p = idle();
    p.initiate("XYZ789".into(), 50);
    p.revert();
    assert_eq!(p.status, ChannelStatus::Disconnected);
    assert!(p.user_address.is_none());
}

#[test]
fn expiry_compares_the_issue_time() {
    let mut p = idle();
    assert!(!p.expired(1_000));
    p.initiate("ABC123".into(), 100);
    assert!(p.expired(101));
    assert!(!p.expired(100));
}

#[test]
fn pair_codes_use_the_unambiguous_alphabet() {
    for _ in 0..20 {
        let code = generate_pair_code();
        assert_eq!(code.chars().count(), 6);
        assert!(code
            .chars()
            .all(|c| "ABCDEFGHJKMNPQRSTUVWXYZ23456789".contains(c)));
    }
}

#[test]
fn pair_code_spells_the_draws() {
    assert_eq!(pair_code_from(&[0, 1, 2, 30, 29, 22]), "ABC98Z");
    assert_eq!(pair_code_from(&[7, 7, 7, 7, 7, 7]), "HHHHHH");
}
