use lipl_repo::error::FileRepoError;
use lipl_repo::id::Uuid;
use lipl_repo::model::{Lyric, Playlist};
use lipl_repo::repo::RepoDb;

fn lyric(bits: u128, title: &str, parts: Vec<Vec<&str>>) -> Lyric {
    Lyric {
        id: Uuid::from_bits(bits),
        title: String::from(title),
        parts: parts
            .into_iter()
            .map(|p| p.into_iter().map(String::from).collect())
            .collect(),
    }
}

fn playlist(bits: u128, title: &str, members: Vec<u128>) -> Playlist {
    Playlist {
        id: Uuid::from_bits(bits),
        title: String::from(title),
        members: members.into_iter().map(Uuid::from_bits).collect(),
    }
}

#[test]
fn memsize_of_lipl_repo() {}

#[test]
fn identity_wraps_and_ignore_discards() {
    assert_eq!(lipl_repo::identity::<u32>(7).unwrap(), 7);
    lipl_repo::ignore(7u32);
    let config = lipl_repo::FileRepoConfig {
        path: String::from("music"),
    };
    assert_eq!(config.path, "music");
}

#[test]
fn upsert_then_get_returns_what_was_written() {
    let mut db = RepoDb::new();
    let l = lyric(0xa1, "Song", vec![vec!["line1", "line2"]]);
    let stored = db.upsert_lyric(l).unwrap();
    assert_eq!(stored.title, "Song");
    let got = db.get_lyric(Uuid::from_bits(0xa1)).unwrap();
    assert_eq!(got.title, "Song");
    assert_eq!(got.parts, vec![vec!["line1".to_string(), "line2".to_string()]]);
}

#[test]
fn upsert_overwrites_entry_with_same_id() {
    let mut db = RepoDb::new();
    db.upsert_lyric(lyric(7, "One", vec![vec!["a"]])).unwrap();
    db.upsert_lyric(lyric(7, "Two", vec![vec!["b"]])).unwrap();
    let all = db.get_lyrics();
    assert_eq!(all.len(), 1);
    assert_eq!(all[0].title, "Two");
}

#[test]
fn playlist_upsert_accepts_only_existing_members() {
    let mut db = RepoDb::new();
    db.upsert_lyric(lyric(0xa1, "Song", vec![vec!["x"]])).unwrap();
    let ok = db.upsert_playlist(playlist(0x91, "Mix", vec![0xa1]));
    assert!(ok.is_ok());
    let bad = db.upsert_playlist(playlist(0x92, "Bad", vec![0xdead]));
    match bad {
        Err(FileRepoError::PlaylistInvalidMember(pid, mid)) => {
            assert_eq!(pid, Uuid::from_bits(0x92).hyphenated());
            assert_eq!(mid, Uuid::from_bits(0xdead).hyphenated());
        }
        other => panic!("expected invalid member error, got {:?}", other),
    }
    // the rejected playlist was not written
    match db.get_playlist(Uuid::from_bits(0x92)) {
        Err(FileRepoError::NotFound(_)) => {}
        other => panic!("expected not found, got {:?}", other),
    }
}

#[test]
fn delete_lyric_cascades_into_playlists() {
    let mut db = RepoDb::new();
    db.upsert_lyric(lyric(1, "A", vec![vec!["a"]])).unwrap();
    db.upsert_lyric(lyric(2, "B", vec![vec!["b"]])).unwrap();
    db.upsert_playlist(playlist(10, "Mix", vec![1, 2])).unwrap();
    db.delete_lyric(Uuid::from_bits(1)).unwrap();
    let p = db.get_playlist(Uuid::from_bits(10)).unwrap();
    assert_eq!(p.members, vec![Uuid::from_bits(2)]);
    match db.get_lyric(Uuid::from_bits(1)) {
        Err(FileRepoError::NotFound(s)) => assert_eq!(s, Uuid::from_bits(1).hyphenated()),
        other => panic!("expected not found, got {:?}", other),
    }
}

#[test]
fn deletes_are_idempotent() {
    let mut db = RepoDb::new();
    db.upsert_lyric(lyric(1, "A", vec![vec!["a"]])).unwrap();
    db.upsert_playlist(playlist(10, "Mix", vec![1])).unwrap();
    assert!(db.delete_lyric(Uuid::from_bits(1)).is_ok());
    assert!(db.delete_lyric(Uuid::from_bits(1)).is_ok());
    assert!(db.delete_playlist(Uuid::from_bits(10)).is_ok());
    assert!(db.delete_playlist(Uuid::from_bits(10)).is_ok());
    assert_eq!(db.get_lyrics().len(), 0);
    assert_eq!(db.get_playlists().len(), 0);
}

#[test]
fn distinct_upserts_all_land_exactly_once() {
    let mut db = RepoDb::new();
    for bits in 1u128..=5 {
        db.upsert_lyric(lyric(bits, "T", vec![vec!["l"]])).unwrap();
    }
    let all = db.get_lyrics();
    assert_eq!(all.len(), 5);
    for bits in 1u128..=5 {
        let count = all.iter().filter(|l| l.id == Uuid::from_bits(bits)).count();
        assert_eq!(count, 1);
    }
}

#[test]
fn summaries_project_id_and_title() {
    let mut db = RepoDb::new();
    db.upsert_lyric(lyric(1, "A", vec![vec!["a"]])).unwrap();
    db.upsert_playlist(playlist(10, "Mix", vec![1])).unwrap();
    let ls = db.get_lyric_summaries();
    assert_eq!(ls.len(), 1);
    assert_eq!(ls[0].id, Uuid::from_bits(1));
    assert_eq!(ls[0].title, "A");
    let ps = db.get_playlist_summaries();
    assert_eq!(ps.len(), 1);
    assert_eq!(ps[0].id, Uuid::from_bits(10));
    assert_eq!(ps[0].title, "Mix");
}

#[test]
fn empty_directory_scenario() {
    let mut db = RepoDb::new();
    let a1 = Uuid::from_bits(0xa1);
    db.upsert_lyric(lyric(0xa1, "Song", vec![vec!["line1", "line2"]]))
        .unwrap();
    let got = db.get_lyric(a1).unwrap();
    assert_eq!(got.title, "Song");
    assert_eq!(got.parts, vec![vec!["line1".to_string(), "line2".to_string()]]);
    assert!(db.upsert_playlist(playlist(0x91, "Mix", vec![0xa1])).is_ok());
    let bad = db.upsert_playlist(playlist(0x92, "Bad", vec![0xbad]));
    assert!(matches!(bad, Err(FileRepoError::PlaylistInvalidMember(_, _))));
    assert!(matches!(
        db.get_playlist(Uuid::from_bits(0x92)),
        Err(FileRepoError::NotFound(_))
    ));
    db.delete_lyric(a1).unwrap();
    let p1 = db.get_playlist(Uuid::from_bits(0x91)).unwrap();
    assert_eq!(p1.members, Vec::<Uuid>::new());
}
