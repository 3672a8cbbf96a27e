use updown::redeem::{mark_id, plan_redeem, RedeemPlan, RedeemTally};

#[test]
fn ids_are_marked_once() {
    assert_eq!(mark_id("abc"), "0xabc");
    assert_eq!(mark_id("0xabc"), "0xabc");
    assert_eq!(mark_id(""), "0x");
    assert_eq!(mark_id(&mark_id("12")), mark_id("12"));
}

#[test]
fn what_is_redeemed() {
    let wallet: Option<String> = Some("0xwallet".to_string());
    let id: Option<String> = Some("12".to_string());
    assert!(plan_redeem(&None, &id).is_none());
    assert!(plan_redeem(&None, &None).is_none());
    match plan_redeem(&wallet, &id) {
        Some(RedeemPlan::One { condition_id }) => assert_eq!(condition_id, "0x12"),
        _ => panic!("one condition was asked for"),
    }
    match plan_redeem(&wallet, &None) {
        Some(RedeemPlan::All { wallet }) => assert_eq!(wallet, "0xwallet"),
        _ => panic!("all conditions were asked for"),
    }
}

#[test]
fn redeemed_and_failed_are_counted() {
    let mut t: RedeemTally = RedeemTally::new();
    t.note(true);
    t.note(false);
    t.note(true);
    assert_eq!((t.ok_count, t.fail_count), (2, 1));
}
