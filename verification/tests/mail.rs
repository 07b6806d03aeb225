use amail::account::AccountId;
use amail::ledger::{Mail, MailError};

fn bob() -> AccountId {
    AccountId::new(1)
}

fn eve() -> AccountId {
    AccountId::new(2)
}

fn alice() -> AccountId {
    AccountId::new(3)
}

#[test]
fn test_init() {
    let ml = Mail::new();
    let sent = ml.get_sent_mail(alice());
    assert_eq!(sent.len(), 0);
}

#[test]
fn test_send() {
    let mut ml = Mail::new();
    let sent = ml.get_sent_mail(bob());
    assert_eq!(sent.len(), 0);

    let res = ml.send_mail(bob(), eve(), "mail1".to_string(), "konnichiwa".to_string(), 0);
    assert!(res);
}

#[test]
fn test_get_mask() {
    let mut ml = Mail::new();

    let _res = ml.send_mail(bob(), eve(), "mail1".to_string(), "konnichiwa".to_string(), 0);

    let res = ml.get_algos_and_mask(bob(), "mail1".to_string()).unwrap();
    let mask1 = res.0;
    assert!(mask1.len() != 0);

    let res2 = ml.get_algos_and_mask(eve(), "mail1".to_string()).unwrap();
    let mask2 = res2.0;
    assert_eq!(mask1, mask2);
}

#[test]
#[should_panic]
fn test_get_algos_mask_fail() {
    let mut ml = Mail::new();

    let _res = ml.send_mail(bob(), eve(), "mail2".to_string(), "konnichiwa".to_string(), 0);

    let _res = ml.get_algos_and_mask(alice(), "mail2".to_string()).unwrap();
}

#[test]
fn test_get_algos() {
    let mut ml = Mail::new();

    let _res = ml.send_mail(bob(), eve(), "mail2".to_string(), "konnichiwa".to_string(), 0);

    let res = ml.get_algos_and_mask(eve(), "mail2".to_string()).unwrap();
    let algos = res.1;
    assert!(algos[0] + algos[1] + algos[2] <= 6);
}

#[test]
#[should_panic]
fn test_get_algos_fail() {
    let mut ml = Mail::new();

    let _res = ml.send_mail(bob(), eve(), "mail2".to_string(), "konnichiwa".to_string(), 0);

    let _res = ml.get_algos_and_mask(alice(), "mail2".to_string()).unwrap();
}

#[test]
fn mail_scenario() {
    let mut ml = Mail::new();
    let t0: u64 = 0;
    let res = ml.send_mail(bob(), eve(), "mail1".to_string(), "konnichiwa".to_string(), t0);
    assert!(res);
    assert_eq!(ml.get_sent_mail(bob()), vec!["mail1".to_string()]);
    assert_eq!(ml.get_received_mail(eve()), vec!["mail1".to_string()]);
    let from_sender = ml.get_algos_and_mask(bob(), "mail1".to_string()).unwrap();
    let from_recipient = ml.get_algos_and_mask(eve(), "mail1".to_string()).unwrap();
    assert_eq!(from_sender, from_recipient);
    let algos = from_sender.1;
    assert!(algos[0] + algos[1] + algos[2] <= 6);
}

#[test]
fn mask_exact_value() {
    // phrase "konnichiwa", timestamp 0, seed state "nonceecnon":
    // classifier positions are bytes 0, 5 and 9; splits come from bytes 1, 6
    // and 8 reduced modulo 1, 10 and 10, giving cuts at 0, 4 and 9.
    let mut ml = Mail::new();
    let res = ml.send_mail(bob(), eve(), "mail1".to_string(), "konnichiwa".to_string(), 0);
    assert!(res);
    let (mask, algos) = ml.get_algos_and_mask(bob(), "mail1".to_string()).unwrap();
    assert_eq!(mask, "konnnonceecno0nichiwa".to_string());
    assert_eq!(algos, vec![2, 0, 1]);
}

#[test]
fn duplicate_send_rejected() {
    let mut ml = Mail::new();
    assert!(ml.send_mail(bob(), eve(), "mail1".to_string(), "konnichiwa".to_string(), 7));
    let sent_before = ml.get_sent_mail(bob());
    let received_before = ml.get_received_mail(eve());
    let record_before = ml.get_algos_and_mask(bob(), "mail1".to_string()).unwrap();

    let res = ml.send_mail(alice(), bob(), "mail1".to_string(), "ohayou".to_string(), 8);
    assert!(!res);
    assert_eq!(ml.get_sent_mail(bob()), sent_before);
    assert_eq!(ml.get_received_mail(eve()), received_before);
    assert_eq!(ml.get_sent_mail(alice()).len(), 0);
    assert_eq!(ml.get_received_mail(bob()).len(), 0);
    assert_eq!(ml.get_algos_and_mask(bob(), "mail1".to_string()).unwrap(), record_before);
}

#[test]
fn unknown_mail_not_found() {
    let ml = Mail::new();
    let res = ml.get_algos_and_mask(bob(), "mail1".to_string());
    assert_eq!(res, Err(MailError::NotFound));
}

#[test]
fn third_party_unauthorized() {
    let mut ml = Mail::new();
    assert!(ml.send_mail(bob(), eve(), "mail1".to_string(), "konnichiwa".to_string(), 3));
    let res = ml.get_algos_and_mask(alice(), "mail1".to_string());
    assert_eq!(res, Err(MailError::Unauthorized));
}

#[test]
fn classifier_in_range() {
    let mut ml = Mail::new();
    assert!(ml.send_mail(bob(), eve(), "m1".to_string(), "zzz".to_string(), 123456));
    assert!(ml.send_mail(bob(), eve(), "m2".to_string(), "a b c d".to_string(), 98765));
    for id in ["m1", "m2"] {
        let (_, algos) = ml.get_algos_and_mask(bob(), id.to_string()).unwrap();
        assert_eq!(algos.len(), 3);
        for a in algos {
            assert!(a < 3);
        }
    }
}

#[test]
fn mask_deterministic() {
    let mut ml1 = Mail::new();
    let mut ml2 = Mail::new();
    for ml in [&mut ml1, &mut ml2] {
        assert!(ml.send_mail(bob(), eve(), "seed".to_string(), "irasshaimase".to_string(), 42));
        assert!(ml.send_mail(eve(), bob(), "mail9".to_string(), "konbanwa".to_string(), 97));
    }
    let r1 = ml1.get_algos_and_mask(eve(), "mail9".to_string()).unwrap();
    let r2 = ml2.get_algos_and_mask(bob(), "mail9".to_string()).unwrap();
    assert_eq!(r1, r2);
}

#[test]
fn never_used_account_defaults() {
    let ml = Mail::new();
    assert_eq!(ml.get_sent_mail(alice()).len(), 0);
    assert_eq!(ml.get_received_mail(alice()).len(), 0);
    assert_eq!(ml.get_contacts(alice()).len(), 0);
}

#[test]
fn short_phrase_rejected() {
    let mut ml = Mail::new();
    assert!(!ml.send_mail(bob(), eve(), "mail1".to_string(), "ab".to_string(), 0));
    assert!(!ml.send_mail(bob(), eve(), "mail1".to_string(), "".to_string(), 0));
    assert_eq!(ml.get_sent_mail(bob()).len(), 0);
    assert_eq!(ml.get_algos_and_mask(bob(), "mail1".to_string()), Err(MailError::NotFound));
}

#[test]
fn non_ascii_phrase_rejected() {
    let mut ml = Mail::new();
    assert!(!ml.send_mail(bob(), eve(), "mail1".to_string(), "こんにちは".to_string(), 0));
    assert_eq!(ml.get_sent_mail(bob()).len(), 0);
}

#[test]
fn contacts_append_and_default() {
    let mut ml = Mail::new();
    assert_eq!(ml.get_contacts(bob()).len(), 0);
    assert!(ml.add_contacts(bob(), eve()));
    assert_eq!(ml.get_contacts(bob()), vec![eve()]);
    assert!(ml.add_contacts(bob(), eve()));
    assert_eq!(ml.get_contacts(bob()), vec![eve(), eve()]);
    assert_eq!(ml.get_contacts(eve()).len(), 0);
}

#[test]
fn timestamp_string_in_mask() {
    // With timestamp 1000 the cut of "1000" falls at 111 % 4 == 3, so the
    // mask opens with "100" and carries the remaining "0" after the state's
    // left fragment.
    let mut ml = Mail::new();
    assert!(ml.send_mail(bob(), eve(), "mail1".to_string(), "konnichiwa".to_string(), 1000));
    let (mask, _) = ml.get_algos_and_mask(bob(), "mail1".to_string()).unwrap();
    assert_eq!(mask, "100konnnonceecno0nichiwa".to_string());
}

#[test]
fn long_spaced_phrases_keep_working() {
    // Phrases far longer than the rolling-state cap, with whitespace that
    // the state update strips, leave the ledger able to keep sending.
    let mut ml = Mail::new();
    let long_phrase = "k o n n i c h i w a ".repeat(8);
    assert_eq!(long_phrase.len(), 160);
    assert!(ml.send_mail(bob(), eve(), "mail1".to_string(), long_phrase.clone(), 55));
    assert!(ml.send_mail(bob(), eve(), "mail2".to_string(), long_phrase, 56));
    assert!(ml.send_mail(bob(), eve(), "mail3".to_string(), "konnichiwa".to_string(), 57));
    let (mask, _) = ml.get_algos_and_mask(eve(), "mail3".to_string()).unwrap();
    assert!(mask.len() != 0);
}

#[test]
fn rolling_state_feeds_next_mask() {
    // The same phrase and timestamp give a different mask once the rolling
    // state has advanced.
    let mut ml = Mail::new();
    assert!(ml.send_mail(bob(), eve(), "mail1".to_string(), "konnichiwa".to_string(), 0));
    assert!(ml.send_mail(bob(), eve(), "mail2".to_string(), "konnichiwa".to_string(), 0));
    let (mask1, _) = ml.get_algos_and_mask(bob(), "mail1".to_string()).unwrap();
    let (mask2, _) = ml.get_algos_and_mask(bob(), "mail2".to_string()).unwrap();
    assert_ne!(mask1, mask2);
}
