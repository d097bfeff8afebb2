use lipl_repo::error::FileRepoError;
use lipl_repo::id::Uuid;
use lipl_repo::model::{Lyric, Playlist};
use lipl_repo::parts::{canonical_lyric, lyric_to_text, text_to_lyric, to_parts, to_text};
use lipl_repo::playlistfmt::{canonical_playlist, playlist_to_text, text_to_playlist};
use lipl_repo::text::{join_lines, split_lines};

#[test]
fn uuid_hyphenated_exact() {
    let u = Uuid::from_bits(0x00112233_4455_6677_8899_aabbccddeeffu128);
    assert_eq!(u.hyphenated(), "00112233-4455-6677-8899-aabbccddeeff");
}

#[test]
fn uuid_parse_roundtrip() {
    let u = Uuid::from_bits(0xfeedface_0000_0001_8000_00000000beefu128);
    let s = u.hyphenated();
    assert_eq!(Uuid::from_hyphenated(&s), Some(u));
    assert_eq!(Uuid::from_hyphenated("not-a-uuid"), None);
    assert_eq!(
        Uuid::from_hyphenated("00112233-4455-6677-8899-aabbccddeefg"),
        None
    );
    assert_eq!(
        Uuid::from_hyphenated("00112233+4455-6677-8899-aabbccddeeff"),
        None
    );
}

#[test]
fn split_and_join_lines() {
    let lines = split_lines("a\nb\n\nc");
    assert_eq!(lines, vec!["a", "b", "", "c"]);
    assert_eq!(join_lines(&lines), "a\nb\n\nc");
    assert_eq!(split_lines(""), vec![""]);
    assert_eq!(split_lines("x\n"), vec!["x", ""]);
}

#[test]
fn lyric_text_exact() {
    let l = Lyric {
        id: Uuid::from_bits(1),
        title: String::from("T"),
        parts: vec![
            vec![String::from("a"), String::from("b")],
            vec![String::from("c")],
        ],
    };
    assert_eq!(lyric_to_text(&l), "T\n\na\nb\n\nc");
}

#[test]
fn lyric_parse_roundtrip() {
    let back = text_to_lyric(Uuid::from_bits(9), "Title\n\nv1l1\nv1l2\n\nv2l1");
    assert_eq!(back.id, Uuid::from_bits(9));
    assert_eq!(back.title, "Title");
    assert_eq!(
        back.parts,
        vec![
            vec!["v1l1".to_string(), "v1l2".to_string()],
            vec!["v2l1".to_string()],
        ]
    );
}

#[test]
fn lyric_parse_tolerates_loose_blank_lines() {
    let back = text_to_lyric(Uuid::from_bits(9), "\n\nTitle\nfirst\n\n\nsecond\n");
    assert_eq!(back.title, "Title");
    assert_eq!(
        back.parts,
        vec![vec!["first".to_string()], vec!["second".to_string()]]
    );
}

#[test]
fn parts_split_and_join() {
    let parts = to_parts("a\nb\n\nc");
    assert_eq!(
        parts,
        vec![vec!["a".to_string(), "b".to_string()], vec!["c".to_string()]]
    );
    assert_eq!(to_text(&parts), "a\nb\n\nc");
}

#[test]
fn canonical_lyric_is_identity_on_well_formed_input() {
    let l = Lyric {
        id: Uuid::from_bits(3),
        title: String::from("Song"),
        parts: vec![vec![String::from("one"), String::from("two")]],
    };
    let c = canonical_lyric(&l);
    assert_eq!(c.id, l.id);
    assert_eq!(c.title, l.title);
    assert_eq!(c.parts, l.parts);
}

#[test]
fn playlist_text_exact() {
    let p = Playlist {
        id: Uuid::from_bits(0x10),
        title: String::from("Mix"),
        members: vec![Uuid::from_bits(1), Uuid::from_bits(2)],
    };
    assert_eq!(
        playlist_to_text(&p),
        "id: 00000000-0000-0000-0000-000000000010\n\
         title: Mix\n\
         members:\n\
         - 00000000-0000-0000-0000-000000000001\n\
         - 00000000-0000-0000-0000-000000000002"
    );
}

#[test]
fn playlist_parse_roundtrip() {
    let p = Playlist {
        id: Uuid::from_bits(0x77),
        title: String::from("Evening"),
        members: vec![Uuid::from_bits(5)],
    };
    let text = playlist_to_text(&p);
    let back = text_to_playlist(&text).unwrap();
    assert_eq!(back.id, p.id);
    assert_eq!(back.title, p.title);
    assert_eq!(back.members, p.members);
}

#[test]
fn playlist_title_is_sanitized_onto_one_line() {
    let p = Playlist {
        id: Uuid::from_bits(0x77),
        title: String::from("two\nlines"),
        members: vec![],
    };
    let c = canonical_playlist(&p);
    assert_eq!(c.title, "two lines");
    assert_eq!(c.members, p.members);
}

#[test]
fn malformed_playlist_file_is_a_parse_error() {
    for text in [
        "",
        "id: nope\ntitle: x\nmembers:",
        "title: x\nmembers:",
        "id: 00000000-0000-0000-0000-000000000001\ntitle: x\nmembers:\n- broken",
        "id: 00000000-0000-0000-0000-000000000001\ntitle: x\nnothing:",
    ] {
        match text_to_playlist(text) {
            Err(FileRepoError::Parse(_)) => {}
            other => panic!("expected parse error for {:?}, got {:?}", text, other),
        }
    }
}
