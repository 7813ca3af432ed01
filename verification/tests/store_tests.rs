use vocab::{Guess, ImportStatus, Translation, VocabStore, VocabStoreError};

#[test]
fn test_add() {
    let mut store = VocabStore::new();
    let translation = Translation::new("yes", "はい");
    store.add(&translation).unwrap();
    assert_eq!(store.len(), 1);
    assert_eq!(store.entries()[0].local, "yes");
    assert_eq!(store.entries()[0].foreign, "はい");
}

#[test]
fn test_add_duplicate_pair() {
    let mut store = VocabStore::new();
    store.add(&Translation::new("yes", "はい")).unwrap();
    match store.add(&Translation::new("yes", "はい")) {
        Err(VocabStoreError::DuplicateEntry) => {}
        Err(e) => assert!(
            false,
            "VocabStore did not return DuplicateEntry error: {:?}",
            e
        ),
        Ok(_) => assert!(false, "VocabStore did not return DuplicateEntry error"),
    }
    assert_eq!(store.len(), 1);
}

#[test]
fn test_save() {
    let mut store = VocabStore::new();
    let mut translation = Translation::new("yes", "はい");
    store.add(&translation).unwrap();
    assert_eq!(store.entries()[0].guesses_foreign_total, 0);

    translation.guesses_foreign_total = 2;
    store.save(&translation);
    assert_eq!(store.len(), 1);
    assert_eq!(store.entries()[0].guesses_foreign_total, 2);

    store.save(&Translation::new("no", "いいえ"));
    assert_eq!(store.len(), 2);
    assert_eq!(store.entries()[1].local, "no");
}

#[test]
fn test_find_local() {
    let mut store = VocabStore::new();
    store.add(&Translation::new("yes", "はい")).unwrap();
    store.add(&Translation::new("no", "いいえ")).unwrap();
    let found = store.find_local("no").unwrap();
    assert_eq!(found.foreign, "いいえ");
    assert!(store.find_local("maybe").is_none());
}

#[test]
fn test_find_local_returns_first_match() {
    let mut store = VocabStore::new();
    store.add(&Translation::new("yes", "はい")).unwrap();
    store.add(&Translation::new("yes", "oui")).unwrap();
    assert_eq!(store.find_local("yes").unwrap().foreign, "はい");
}

#[test]
fn test_entries_in_order() {
    let mut store = VocabStore::new();
    let translation_yes = Translation::new("yes", "はい");
    let translation_no = Translation::new("no", "いいえ");
    store.add(&translation_yes).unwrap();
    store.add(&translation_no).unwrap();
    let entries = store.entries();
    assert_eq!(entries.len(), 2);
    assert_eq!(entries[0].local, "yes");
    assert_eq!(entries[1].local, "no");
}

#[test]
fn test_draw_guess() {
    let mut store = VocabStore::new();
    assert!(store.guess_at(0).is_none());
    store.add(&Translation::new("yes", "はい")).unwrap();
    let first = store.guess_at(0).unwrap();
    assert_eq!(first.translation().local, "yes");
    let second = store.guess_at(0).unwrap();
    assert_eq!(second.translation().local, "yes");
    assert!(store.guess_at(1).is_none());
}

#[test]
fn test_import_added_then_updated() {
    let mut store = VocabStore::new();

    let fresh = Translation::new("yes", "はい");
    assert_eq!(store.import_record(fresh).unwrap(), ImportStatus::Added);
    assert_eq!(store.len(), 1);
    assert_eq!(store.entries()[0].guesses_local_total, 0);

    let mut incoming = Translation::new("yes", "はい");
    incoming.guesses_local_total = 4;
    incoming.guesses_local_correct = 3;
    assert_eq!(store.import_record(incoming).unwrap(), ImportStatus::Updated);
    assert_eq!(store.len(), 1);
    assert_eq!(store.entries()[0].guesses_local_total, 4);
    assert_eq!(store.entries()[0].guesses_local_correct, 3);
}

#[test]
fn test_import_decision() {
    // Nothing found under the local word: taken verbatim.
    let incoming = Translation::new("yes", "はい");
    let (merged, status) = vocab::store::import_decision(None, incoming).unwrap();
    assert_eq!(status, ImportStatus::Added);
    assert_eq!(merged, Translation::new("yes", "はい"));

    // Something found: the reconciliation of the two.
    let mut existing = Translation::new("yes", "はい");
    existing.guesses_local_total = 5;
    existing.guesses_local_correct = 4;
    let mut incoming = Translation::new("yes", "はい");
    incoming.guesses_local_total = 3;
    incoming.guesses_foreign_total = 2;
    incoming.guesses_foreign_correct = 1;
    let (merged, status) = vocab::store::import_decision(Some(&existing), incoming).unwrap();
    assert_eq!(status, ImportStatus::Updated);
    assert_eq!(merged.guesses_local_total, 5);
    assert_eq!(merged.guesses_local_correct, 4);
    assert_eq!(merged.guesses_foreign_total, 2);
    assert_eq!(merged.guesses_foreign_correct, 1);

    // A key mismatch refuses to merge.
    let existing = Translation::new("yes", "はい");
    match vocab::store::import_decision(Some(&existing), Translation::new("yes", "oui")) {
        Err(VocabStoreError::ReconciliationError) => {}
        _ => assert!(false, "VocabStore did not return ReconciliationError error"),
    }
}

#[test]
fn test_import_mismatched_foreign_fails() {
    let mut store = VocabStore::new();
    store.add(&Translation::new("yes", "はい")).unwrap();
    match store.import_record(Translation::new("yes", "oui")) {
        Err(VocabStoreError::ReconciliationError) => {}
        _ => assert!(false, "VocabStore did not return ReconciliationError error"),
    }
    assert_eq!(store.len(), 1);
    assert_eq!(store.entries()[0].foreign, "はい");
}

#[test]
fn test_end_to_end_quiz_export_import() {
    // An empty store gets one pair.
    let mut store = VocabStore::new();
    store.add(&Translation::new("yes", "はい")).unwrap();

    // One quiz round: a fresh record ties on correct counts, so the
    // foreign word is the one being tested and the local word is shown.
    let mut guess = store.guess_at(0).unwrap();
    assert_eq!(guess.render(), "yes");
    assert!(guess.guess("はい"));
    store.save(guess.translation());
    assert_eq!(store.entries()[0].guesses_foreign_total, 1);
    assert_eq!(store.entries()[0].guesses_foreign_correct, 1);

    // Export, then import into a fresh store: the counters survive.
    let document = vocab::codec::write_records(store.entries()).unwrap();
    let records = vocab::codec::read_records(&document).unwrap();
    let mut second = VocabStore::new();
    for record in records {
        assert_eq!(second.import_record(record).unwrap(), ImportStatus::Added);
    }
    assert_eq!(second.len(), 1);
    assert_eq!(second.entries()[0].local, "yes");
    assert_eq!(second.entries()[0].foreign, "はい");
    assert_eq!(second.entries()[0].guesses_foreign_total, 1);
    assert_eq!(second.entries()[0].guesses_foreign_correct, 1);
    assert_eq!(second.entries()[0].guesses_local_total, 0);
}

#[test]
fn test_quiz_local_direction_counts_local() {
    // When the local word is the one being tested, the foreign word is
    // shown and a correct answer lands in the local counters.
    let mut guess = Guess::Local(Translation::new("yes", "はい"));
    assert_eq!(guess.render(), "はい");
    assert!(guess.guess("yes"));
    assert_eq!(guess.translation().guesses_local_total, 1);
    assert_eq!(guess.translation().guesses_local_correct, 1);
    assert_eq!(guess.translation().guesses_foreign_total, 0);
}
