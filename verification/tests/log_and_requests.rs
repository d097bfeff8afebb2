use lipl_repo::error::FileRepoError;
use lipl_repo::id::Uuid;
use lipl_repo::model::{Lyric, Playlist};
use lipl_repo::repo::RepoDb;
use lipl_repo::request::{handle_request, transaction_of, FileAction, Request, Response};
use lipl_repo::transaction::{parse_log, transaction_to_line, Transaction};

fn lyric(bits: u128, title: &str, lines: Vec<&str>) -> Lyric {
    Lyric {
        id: Uuid::from_bits(bits),
        title: String::from(title),
        parts: vec![lines.into_iter().map(String::from).collect()],
    }
}

fn playlist(bits: u128, title: &str, members: Vec<u128>) -> Playlist {
    Playlist {
        id: Uuid::from_bits(bits),
        title: String::from(title),
        members: members.into_iter().map(Uuid::from_bits).collect(),
    }
}

#[test]
fn delete_entry_line_exact() {
    let t = Transaction::DeleteLyric(Uuid::from_bits(0x42));
    assert_eq!(
        transaction_to_line(&t),
        "delete-lyric 00000000-0000-0000-0000-000000000042"
    );
}

#[test]
fn upsert_entry_escapes_newlines() {
    let t = Transaction::UpsertLyric(lyric(1, "T", vec!["a", "b"]));
    let line = transaction_to_line(&t);
    assert_eq!(
        line,
        "upsert-lyric 00000000-0000-0000-0000-000000000001 T\\n\\na\\nb"
    );
    assert!(!line.contains('\n'));
}

#[test]
fn log_roundtrip_through_text() {
    let entries = vec![
        Transaction::UpsertLyric(lyric(1, "A", vec!["x"])),
        Transaction::UpsertPlaylist(playlist(0x10, "Mix", vec![1])),
        Transaction::DeleteLyric(Uuid::from_bits(1)),
        Transaction::DeletePlaylist(Uuid::from_bits(0x10)),
    ];
    let mut text = String::new();
    for e in &entries {
        text.push_str(&transaction_to_line(e));
        text.push('\n');
    }
    let back = parse_log(&text).unwrap();
    assert_eq!(back.len(), 4);
    match &back[0] {
        Transaction::UpsertLyric(l) => {
            assert_eq!(l.id, Uuid::from_bits(1));
            assert_eq!(l.title, "A");
            assert_eq!(l.parts, vec![vec!["x".to_string()]]);
        }
        other => panic!("unexpected entry {:?}", other),
    }
    match &back[1] {
        Transaction::UpsertPlaylist(p) => {
            assert_eq!(p.id, Uuid::from_bits(0x10));
            assert_eq!(p.members, vec![Uuid::from_bits(1)]);
        }
        other => panic!("unexpected entry {:?}", other),
    }
    assert!(matches!(&back[2], Transaction::DeleteLyric(u) if *u == Uuid::from_bits(1)));
    assert!(matches!(&back[3], Transaction::DeletePlaylist(u) if *u == Uuid::from_bits(0x10)));
}

#[test]
fn broken_log_line_is_a_parse_error() {
    match parse_log("delete-lyric nope\n") {
        Err(FileRepoError::Parse(_)) => {}
        other => panic!("expected parse error, got {:?}", other),
    }
    match parse_log("something else\n") {
        Err(FileRepoError::Parse(_)) => {}
        other => panic!("expected parse error, got {:?}", other),
    }
}

#[test]
fn replay_recovers_state_from_log() {
    let a = lyric(0xa, "Song", vec!["l1"]);
    let p = playlist(0x9, "Mix", vec![0xa]);
    let mut text = String::new();
    for e in [
        Transaction::UpsertLyric(a),
        Transaction::UpsertPlaylist(p),
        Transaction::DeleteLyric(Uuid::from_bits(0xa)),
    ] {
        text.push_str(&transaction_to_line(&e));
        text.push('\n');
    }
    let mut db = RepoDb::new();
    db.build_from_log(&text).unwrap();
    let back = db.get_playlist(Uuid::from_bits(0x9)).unwrap();
    assert_eq!(back.members, Vec::<Uuid>::new());
    assert!(matches!(
        db.get_lyric(Uuid::from_bits(0xa)),
        Err(FileRepoError::NotFound(_))
    ));
}

#[test]
fn replay_enforces_the_membership_invariant() {
    // an upsert whose member never existed is rejected during replay too
    let p = playlist(0x9, "Mix", vec![0xa]);
    let mut text = String::new();
    text.push_str(&transaction_to_line(&Transaction::UpsertPlaylist(p)));
    text.push('\n');
    let mut db = RepoDb::new();
    db.build_from_log(&text).unwrap();
    assert_eq!(db.get_playlists().len(), 0);
}

#[test]
fn handle_request_serves_reads_and_mutations() {
    let mut db = RepoDb::new();
    let (resp, actions, stop) = handle_request(&mut db, Request::LyricPost(lyric(1, "A", vec!["x"])));
    assert!(!stop);
    assert!(matches!(resp, Response::Lyric(Ok(_))));
    assert_eq!(actions.len(), 1);
    match &actions[0] {
        FileAction::WriteLyric(id, text) => {
            assert_eq!(*id, Uuid::from_bits(1));
            assert_eq!(text, "A\n\nx");
        }
        other => panic!("unexpected action {:?}", other),
    }
    let (resp, actions, _) = handle_request(&mut db, Request::LyricList);
    match resp {
        Response::Lyrics(Ok(ls)) => assert_eq!(ls.len(), 1),
        other => panic!("unexpected response {:?}", other),
    }
    assert!(actions.is_empty());
    let (resp, actions, stop) = handle_request(&mut db, Request::Stop);
    assert!(stop);
    assert!(actions.is_empty());
    assert!(matches!(resp, Response::Unit(Ok(()))));
}

#[test]
fn delete_request_rewrites_referencing_playlists() {
    let mut db = RepoDb::new();
    handle_request(&mut db, Request::LyricPost(lyric(1, "A", vec!["x"])));
    handle_request(&mut db, Request::PlaylistPost(playlist(0x10, "Mix", vec![1])));
    let (resp, actions, _) = handle_request(&mut db, Request::LyricDelete(Uuid::from_bits(1)));
    assert!(matches!(resp, Response::Unit(Ok(()))));
    assert_eq!(actions.len(), 2);
    assert!(matches!(&actions[0], FileAction::RemoveLyric(u) if *u == Uuid::from_bits(1)));
    match &actions[1] {
        FileAction::WritePlaylist(id, text) => {
            assert_eq!(*id, Uuid::from_bits(0x10));
            assert_eq!(
                text,
                "id: 00000000-0000-0000-0000-000000000010\ntitle: Mix\nmembers:"
            );
        }
        other => panic!("unexpected action {:?}", other),
    }
}

#[test]
fn rejected_playlist_post_writes_nothing() {
    let mut db = RepoDb::new();
    let (resp, actions, _) =
        handle_request(&mut db, Request::PlaylistPost(playlist(0x10, "Mix", vec![1])));
    assert!(matches!(
        resp,
        Response::Playlist(Err(FileRepoError::PlaylistInvalidMember(_, _)))
    ));
    assert!(actions.is_empty());
}

#[test]
fn only_mutations_are_logged() {
    assert!(transaction_of(&Request::LyricList).is_none());
    assert!(transaction_of(&Request::Stop).is_none());
    assert!(transaction_of(&Request::LyricItem(Uuid::from_bits(1))).is_none());
    assert!(matches!(
        transaction_of(&Request::LyricDelete(Uuid::from_bits(1))),
        Some(Transaction::DeleteLyric(_))
    ));
    assert!(matches!(
        transaction_of(&Request::LyricPost(lyric(1, "A", vec!["x"]))),
        Some(Transaction::UpsertLyric(_))
    ));
}
