use note_store::{Note, NoteStore, Principal};

fn note(title: &str, content: &str) -> Note {
    Note { title: title.to_string(), content: content.to_string() }
}

fn principal(seed: u8) -> Principal {
    Principal::from_slice(&[seed, seed.wrapping_mul(31), 7])
}

fn filled(store: &mut NoteStore, caller: &Principal, count: usize) {
    for i in 0..count {
        assert!(store.add_note(caller, format!("t{i}"), format!("c{i}")));
    }
}

#[test]
fn a_list_depends_only_on_its_owners_calls() {
    let a = principal(1);
    let b = principal(2);
    let c = principal(3);

    let mut alone = NoteStore::new();
    assert!(alone.add_note(&a, "1".to_string(), "one".to_string()));
    assert!(alone.add_note(&a, "2".to_string(), "two".to_string()));
    assert!(alone.delete_note(&a, 0));
    assert!(alone.edit_note(&a, 0, "2*".to_string(), "two*".to_string()).is_some());
    assert!(alone.add_note(&a, "3".to_string(), "three".to_string()));

    let mut busy = NoteStore::new();
    assert!(busy.add_note(&b, "b1".to_string(), "B1".to_string()));
    assert!(busy.add_note(&a, "1".to_string(), "one".to_string()));
    assert!(busy.add_note(&c, "c1".to_string(), "C1".to_string()));
    assert!(busy.delete_note(&b, 0));
    assert!(busy.add_note(&a, "2".to_string(), "two".to_string()));
    assert!(!busy.delete_note(&b, 0));
    assert!(busy.edit_note(&c, 0, "c1*".to_string(), "C1*".to_string()).is_some());
    assert!(busy.delete_note(&a, 0));
    assert!(busy.add_note(&b, "b2".to_string(), "B2".to_string()));
    assert!(busy.edit_note(&a, 0, "2*".to_string(), "two*".to_string()).is_some());
    assert!(busy.edit_note(&b, 3, "x".to_string(), "y".to_string()).is_none());
    assert!(busy.add_note(&a, "3".to_string(), "three".to_string()));
    assert!(busy.delete_note(&c, 0));

    assert_eq!(alone.get_notes(&a), busy.get_notes(&a));
    assert_eq!(busy.get_notes(&a), vec![note("2*", "two*"), note("3", "three")]);
    assert_eq!(busy.get_notes(&b), vec![note("b2", "B2")]);
    assert_eq!(busy.get_notes(&c), Vec::<Note>::new());
}

#[test]
fn add_puts_the_note_at_the_end() {
    let mut store = NoteStore::new();
    let p = principal(4);
    filled(&mut store, &p, 3);
    let before = store.get_notes(&p);
    assert!(store.add_note(&p, "new".to_string(), "note".to_string()));
    let after = store.get_notes(&p);
    assert_eq!(after.len(), before.len() + 1);
    assert_eq!(after.last(), Some(&note("new", "note")));
    assert_eq!(&after[..before.len()], &before[..]);
}

#[test]
fn length_is_adds_minus_deletes() {
    let mut store = NoteStore::new();
    let p = principal(5);
    let mut adds = 0usize;
    let mut deletes = 0usize;
    for round in 0..7usize {
        assert!(store.add_note(&p, format!("a{round}"), String::new()));
        adds += 1;
        assert!(store.add_note(&p, format!("b{round}"), String::new()));
        adds += 1;
        if store.delete_note(&p, round) {
            deletes += 1;
        }
        assert!(!store.delete_note(&p, 100));
        assert_eq!(store.get_notes(&p).len(), adds - deletes);
    }
    assert_eq!(adds, 14);
    assert_eq!(deletes, 7);
    assert_eq!(store.get_notes(&p).len(), 7);
    while store.delete_note(&p, 0) {
        deletes += 1;
        assert_eq!(store.get_notes(&p).len(), adds - deletes);
    }
    assert_eq!(deletes, 14);
    assert_eq!(store.get_notes(&p).len(), 0);
}

#[test]
fn get_agrees_with_list_at_every_index() {
    let mut store = NoteStore::new();
    let p = principal(6);
    filled(&mut store, &p, 5);
    assert!(store.delete_note(&p, 2));
    let listed = store.get_notes(&p);
    assert_eq!(listed.len(), 4);
    for (i, expected) in listed.iter().enumerate() {
        assert_eq!(store.get_note_by_index(&p, i).as_ref(), Some(expected));
    }
    assert_eq!(store.get_note_by_index(&p, listed.len()), None);
    assert_eq!(store.get_note_by_index(&p, 3), Some(note("t4", "c4")));
}

#[test]
fn edit_changes_one_position_only() {
    let mut store = NoteStore::new();
    let p = principal(7);
    filled(&mut store, &p, 4);
    let before = store.get_notes(&p);
    assert_eq!(
        store.edit_note(&p, 2, "T".to_string(), "C".to_string()),
        Some(note("T", "C"))
    );
    let after = store.get_notes(&p);
    assert_eq!(after.len(), before.len());
    assert_eq!(store.get_note_by_index(&p, 2), Some(note("T", "C")));
    for i in 0..before.len() {
        if i != 2 {
            assert_eq!(after[i], before[i]);
        }
    }
    assert_eq!(
        after,
        vec![note("t0", "c0"), note("t1", "c1"), note("T", "C"), note("t3", "c3")]
    );
}

#[test]
fn delete_moves_later_notes_down_by_one() {
    let mut store = NoteStore::new();
    let p = principal(8);
    filled(&mut store, &p, 5);
    let before = store.get_notes(&p);
    assert!(store.delete_note(&p, 1));
    let after = store.get_notes(&p);
    assert_eq!(after.len(), before.len() - 1);
    assert_eq!(after[0], before[0]);
    for i in 1..after.len() {
        assert_eq!(after[i], before[i + 1]);
    }
    assert_eq!(
        after,
        vec![note("t0", "c0"), note("t2", "c2"), note("t3", "c3"), note("t4", "c4")]
    );
}

#[test]
fn delete_of_the_first_and_of_the_last() {
    let mut store = NoteStore::new();
    let p = principal(9);
    filled(&mut store, &p, 3);
    assert!(store.delete_note(&p, 2));
    assert_eq!(store.get_notes(&p), vec![note("t0", "c0"), note("t1", "c1")]);
    assert!(store.delete_note(&p, 0));
    assert_eq!(store.get_notes(&p), vec![note("t1", "c1")]);
    assert!(store.delete_note(&p, 0));
    assert_eq!(store.get_notes(&p), Vec::<Note>::new());
}

#[test]
fn out_of_range_writes_change_nothing() {
    let mut store = NoteStore::new();
    let p = principal(10);
    let q = principal(11);
    filled(&mut store, &p, 2);
    filled(&mut store, &q, 1);
    let p_before = store.get_notes(&p);
    let q_before = store.get_notes(&q);
    for index in [2usize, 3, 17, usize::MAX] {
        assert!(!store.delete_note(&p, index));
        assert_eq!(store.edit_note(&p, index, "x".to_string(), "y".to_string()), None);
    }
    assert_eq!(store.get_notes(&p), p_before);
    assert_eq!(store.get_notes(&q), q_before);
}

#[test]
fn add_then_get_at_the_old_length() {
    let mut store = NoteStore::new();
    let p = principal(12);
    for length in 0..4usize {
        assert_eq!(store.get_notes(&p).len(), length);
        assert!(store.add_note(&p, format!("t{length}"), format!("c{length}")));
        assert_eq!(
            store.get_note_by_index(&p, length),
            Some(Note { title: format!("t{length}"), content: format!("c{length}") })
        );
    }
}

#[test]
fn edit_then_get_returns_the_new_note() {
    let mut store = NoteStore::new();
    let p = principal(13);
    filled(&mut store, &p, 3);
    for index in 0..3usize {
        let edited = store.edit_note(&p, index, format!("T{index}"), format!("C{index}"));
        assert_eq!(edited, store.get_note_by_index(&p, index));
        assert_eq!(
            store.get_note_by_index(&p, index),
            Some(Note { title: format!("T{index}"), content: format!("C{index}") })
        );
    }
}

#[test]
fn many_principals_keep_their_own_order() {
    let mut store = NoteStore::new();
    for round in 0..3u8 {
        for seed in 0..20u8 {
            let p = principal(seed);
            assert!(store.add_note(&p, format!("{seed}"), format!("{round}")));
        }
    }
    for seed in 0..20u8 {
        let p = principal(seed);
        assert_eq!(
            store.get_notes(&p),
            vec![
                note(&format!("{seed}"), "0"),
                note(&format!("{seed}"), "1"),
                note(&format!("{seed}"), "2"),
            ]
        );
    }
}
