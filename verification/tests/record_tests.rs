use vocab::{Translation, VocabStoreError};

fn percent(t: &Translation) -> f64 {
    let (num, den) = t.total_accuracy();
    if den > 0 {
        num as f64 / den as f64
    } else {
        0.0
    }
}

#[test]
fn translation_test_guess_local() {
    let mut translation = Translation::new("yes", "はい");
    assert_eq!(translation.guess_local("yEs"), true);
    assert_eq!(translation.guesses_local_total, 1);
    assert_eq!(translation.guesses_local_correct, 1);
    assert_eq!(translation.guesses_foreign_total, 0);
    assert_eq!(translation.guesses_foreign_correct, 0);
    assert_eq!(percent(&translation), 1.0);

    assert_eq!(translation.guess_local("no"), false);
    assert_eq!(translation.guesses_local_total, 2);
    assert_eq!(translation.guesses_local_correct, 1);
    assert_eq!(translation.guesses_foreign_total, 0);
    assert_eq!(translation.guesses_foreign_correct, 0);
    assert_eq!(percent(&translation), 0.5);
}

#[test]
fn translation_test_guess_foreign() {
    let mut translation = Translation::new("yes", "はい");
    assert_eq!(translation.guess_foreign("はい"), true);
    assert_eq!(translation.guesses_local_total, 0);
    assert_eq!(translation.guesses_local_correct, 0);
    assert_eq!(translation.guesses_foreign_total, 1);
    assert_eq!(translation.guesses_foreign_correct, 1);
    assert_eq!(percent(&translation), 1.0);

    assert_eq!(translation.guess_foreign("いいえ"), false);
    assert_eq!(translation.guesses_local_total, 0);
    assert_eq!(translation.guesses_local_correct, 0);
    assert_eq!(translation.guesses_foreign_total, 2);
    assert_eq!(translation.guesses_foreign_correct, 1);
    assert_eq!(percent(&translation), 0.5);
}

#[test]
fn test_reconcile() {
    let mut old_translation = Translation::new("yes", "はい");
    old_translation.guesses_local_correct = 4;
    old_translation.guesses_local_total = 5;
    old_translation.guesses_foreign_correct = 3;
    old_translation.guesses_foreign_total = 5;
    let mut new_translation = Translation::new("yes", "はい");
    new_translation.guesses_local_correct = 4;
    new_translation.guesses_local_total = 4;
    new_translation.guesses_foreign_correct = 6;
    new_translation.guesses_foreign_total = 6;
    let reconciled_translation = old_translation.reconcile(new_translation).unwrap();

    assert_eq!(reconciled_translation.local, "yes");
    assert_eq!(reconciled_translation.foreign, "はい");
    assert_eq!(reconciled_translation.guesses_local_correct, 4);
    assert_eq!(reconciled_translation.guesses_local_total, 5);
    assert_eq!(reconciled_translation.guesses_foreign_correct, 6);
    assert_eq!(reconciled_translation.guesses_foreign_total, 6);

    let old_translation = Translation::new("no", "いいえ");
    let new_translation = Translation::new("japan", "日本");
    match old_translation.reconcile(new_translation) {
        Err(VocabStoreError::ReconciliationError) => {}
        _ => assert!(false, "VocabStore did not return ReconciliationError error"),
    }
}

#[test]
fn test_new_lowercases_both_fields() {
    let t = Translation::new("YeS", "HAI");
    assert_eq!(t.local, "yes");
    assert_eq!(t.foreign, "hai");
    assert_eq!(t.guesses_local_total, 0);
    assert_eq!(t.guesses_local_correct, 0);
    assert_eq!(t.guesses_foreign_total, 0);
    assert_eq!(t.guesses_foreign_correct, 0);
}

#[test]
fn test_guess_local_case_insensitive() {
    let mut a = Translation::new("yes", "はい");
    let mut b = Translation::new("yes", "はい");
    assert_eq!(a.guess_local("YES"), true);
    assert_eq!(b.guess_local("yes"), true);
    assert_eq!(a.guesses_local_total, b.guesses_local_total);
    assert_eq!(a.guesses_local_correct, b.guesses_local_correct);
}

#[test]
fn test_accuracy_zero_on_fresh_record() {
    let t = Translation::new("yes", "はい");
    assert_eq!(t.total_accuracy(), (0, 0));
    assert_eq!(percent(&t), 0.0);
}

#[test]
fn test_reconcile_identical_records() {
    let mut t = Translation::new("yes", "はい");
    t.guesses_local_total = 3;
    t.guesses_local_correct = 2;
    t.guesses_foreign_total = 7;
    t.guesses_foreign_correct = 5;
    let mut u = Translation::new("yes", "はい");
    u.guesses_local_total = 3;
    u.guesses_local_correct = 2;
    u.guesses_foreign_total = 7;
    u.guesses_foreign_correct = 5;
    let r = t.reconcile(u).unwrap();
    assert_eq!(r.local, "yes");
    assert_eq!(r.foreign, "はい");
    assert_eq!(r.guesses_local_total, 3);
    assert_eq!(r.guesses_local_correct, 2);
    assert_eq!(r.guesses_foreign_total, 7);
    assert_eq!(r.guesses_foreign_correct, 5);
}

#[test]
fn test_reconcile_rejects_partial_key_mismatch() {
    let mut existing = Translation::new("yes", "はい");
    existing.guesses_local_total = 9;
    let incoming = Translation::new("yes", "oui");
    match existing.reconcile(incoming) {
        Err(VocabStoreError::ReconciliationError) => {}
        _ => assert!(false, "VocabStore did not return ReconciliationError error"),
    }

    let existing = Translation::new("yes", "はい");
    let mut incoming = Translation::new("no", "はい");
    incoming.guesses_foreign_total = 9;
    match existing.reconcile(incoming) {
        Err(VocabStoreError::ReconciliationError) => {}
        _ => assert!(false, "VocabStore did not return ReconciliationError error"),
    }
}

#[test]
fn test_reconcile_tie_keeps_existing() {
    let mut existing = Translation::new("yes", "はい");
    existing.guesses_local_total = 5;
    existing.guesses_local_correct = 1;
    let mut incoming = Translation::new("yes", "はい");
    incoming.guesses_local_total = 5;
    incoming.guesses_local_correct = 4;
    let r = existing.reconcile(incoming).unwrap();
    assert_eq!(r.guesses_local_total, 5);
    assert_eq!(r.guesses_local_correct, 1);
}
