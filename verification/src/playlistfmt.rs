use vstd::prelude::*;
use vstd::string::*;
use crate::error::FileRepoError;
use crate::id::{
    Uuid, uuid_str, spec_parse_uuid, parse_uuid_str, lemma_parse_uuid_roundtrip,
    lemma_hyphenated_no_newline,
};
use crate::model::{Playlist, PlaylistView};
use crate::text::{
    spec_split_lines, spec_join_lines, split_lines, join_lines, chars_to_string, lemma_split_join,
    starts_with, parse_field, strip_prefix_line, lemma_no_newline_pointwise,
    lemma_concat_no_newline,
};

verus! {

// The playlist file format: structured text of key/value lines and a
// member sequence,
//
//     id: <identifier>
//     title: <title>
//     members:
//     - <identifier>
//
// Writing is total: the title is put on one line by replacing every '\n'
// with a space. Parsing is partial: a file that does not have this shape
// is malformed.

pub open spec fn id_prefix() -> Seq<char> {
    "id: "@
}

pub open spec fn title_prefix() -> Seq<char> {
    "title: "@
}

pub open spec fn members_header() -> Seq<char> {
    "members:"@
}

pub open spec fn dash_prefix() -> Seq<char> {
    "- "@
}

/// The title as written to the file: every '\n' becomes a space.
pub open spec fn sanitize(s: Seq<char>) -> Seq<char> {
    Seq::new(s.len(), |i: int| if s[i] == '\n' { ' ' } else { s[i] })
}

/// The member named by one `- <identifier>` line.
pub open spec fn parse_member_line(line: Seq<char>) -> Option<Uuid> {
    match parse_field(line, dash_prefix()) {
        Some(rest) => spec_parse_uuid(rest),
        None => None,
    }
}

/// The playlist a list of lines parses to, or nothing where the shape or
/// one of the identifiers is wrong.
pub open spec fn parse_playlist_lines(ls: Seq<Seq<char>>) -> Option<PlaylistView> {
    if ls.len() < 3 {
        None
    } else {
        match parse_field(ls[0], id_prefix()) {
            None => None,
            Some(idtxt) => match spec_parse_uuid(idtxt) {
                None => None,
                Some(uid) => match parse_field(ls[1], title_prefix()) {
                    None => None,
                    Some(title) => if ls[2] != members_header() {
                        None
                    } else if forall|k: int|
                        3 <= k < ls.len() ==> parse_member_line(#[trigger] ls[k]) is Some {
                        Some(
                            PlaylistView {
                                id: uid,
                                title,
                                members: Seq::new(
                                    (ls.len() - 3) as nat,
                                    |k: int| parse_member_line(ls[k + 3])->Some_0,
                                ),
                            },
                        )
                    } else {
                        None
                    },
                },
            },
        }
    }
}

pub open spec fn parse_playlist_text(s: Seq<char>) -> Option<PlaylistView> {
    parse_playlist_lines(spec_split_lines(s))
}

/// The lines of the first `i` members.
pub open spec fn member_lines(members: Seq<Uuid>, i: int) -> Seq<Seq<char>>
    decreases i,
{
    if i <= 0 {
        seq![]
    } else {
        member_lines(members, i - 1).push(dash_prefix() + uuid_str(members[i - 1]))
    }
}

pub open spec fn playlist_lines(p: PlaylistView) -> Seq<Seq<char>> {
    seq![
        id_prefix() + uuid_str(p.id),
        title_prefix() + sanitize(p.title),
        members_header(),
    ] + member_lines(p.members, p.members.len() as int)
}

pub open spec fn playlist_text(p: PlaylistView) -> Seq<char> {
    spec_join_lines(playlist_lines(p))
}

/// What the storage engine holds after a playlist upsert: the value
/// produced by writing the playlist's file and reading it back. Only a
/// title with newlines changes; identifier and members are kept exactly.
pub open spec fn canon_playlist(p: PlaylistView) -> PlaylistView {
    PlaylistView { id: p.id, title: sanitize(p.title), members: p.members }
}

/// Each member line is the dash prefix followed by that member's rendering.
proof fn lemma_member_lines_index(members: Seq<Uuid>, i: int, j: int)
    requires
        0 <= j < i <= members.len(),
    ensures
        member_lines(members, i).len() == i,
        member_lines(members, i)[j] == dash_prefix() + uuid_str(members[j]),
    decreases i,
{
    lemma_member_lines_len(members, i);
    if j < i - 1 {
        lemma_member_lines_index(members, i - 1, j);
    }
}

proof fn lemma_member_lines_len(members: Seq<Uuid>, i: int)
    requires
        0 <= i <= members.len(),
    ensures
        member_lines(members, i).len() == i,
    decreases i,
{
    if i > 0 {
        lemma_member_lines_len(members, i - 1);
    }
}

/// Reading back the file written for a playlist yields its canonical form,
/// whatever the playlist holds.
pub proof fn lemma_playlist_roundtrip(p: PlaylistView)
    ensures
        parse_playlist_text(playlist_text(p)) == Some(canon_playlist(p)),
{
    reveal_strlit("id: ");
    reveal_strlit("title: ");
    reveal_strlit("members:");
    reveal_strlit("- ");
    let ls = playlist_lines(p);
    let n = p.members.len() as int;
    lemma_member_lines_len(p.members, n);
    assert(ls.len() == 3 + n);
    assert forall|k: int| 0 <= k < ls.len() implies !(#[trigger] ls[k]).contains('\n') by {
        assert forall|i: int| 0 <= i < id_prefix().len() implies id_prefix()[i] != '\n' by {}
        lemma_no_newline_pointwise(id_prefix());
        assert forall|i: int| 0 <= i < title_prefix().len() implies title_prefix()[i] != '\n' by {}
        lemma_no_newline_pointwise(title_prefix());
        assert forall|i: int| 0 <= i < dash_prefix().len() implies dash_prefix()[i] != '\n' by {}
        lemma_no_newline_pointwise(dash_prefix());
        if k == 0 {
            lemma_hyphenated_no_newline(p.id.bits);
            lemma_concat_no_newline(id_prefix(), uuid_str(p.id));
        } else if k == 1 {
            assert forall|i: int| 0 <= i < sanitize(p.title).len() implies sanitize(p.title)[i]
                != '\n' by {}
            lemma_no_newline_pointwise(sanitize(p.title));
            lemma_concat_no_newline(title_prefix(), sanitize(p.title));
        } else if k == 2 {
            assert forall|i: int| 0 <= i < members_header().len() implies members_header()[i]
                != '\n' by {}
            lemma_no_newline_pointwise(members_header());
        } else {
            lemma_member_lines_index(p.members, n, k - 3);
            lemma_hyphenated_no_newline(p.members[k - 3].bits);
            lemma_concat_no_newline(dash_prefix(), uuid_str(p.members[k - 3]));
        }
    }
    lemma_split_join(ls);
    // the id line
    assert((id_prefix() + uuid_str(p.id)).take(id_prefix().len() as int) =~= id_prefix());
    assert((id_prefix() + uuid_str(p.id)).skip(id_prefix().len() as int) =~= uuid_str(p.id));
    lemma_parse_uuid_roundtrip(p.id);
    // the title line
    assert((title_prefix() + sanitize(p.title)).take(title_prefix().len() as int)
        =~= title_prefix());
    assert((title_prefix() + sanitize(p.title)).skip(title_prefix().len() as int) =~= sanitize(
        p.title,
    ));
    // the member lines
    assert forall|k: int| 3 <= k < ls.len() implies parse_member_line(#[trigger] ls[k])
        == Some(p.members[k - 3]) by {
        lemma_member_lines_index(p.members, n, k - 3);
        let line = dash_prefix() + uuid_str(p.members[k - 3]);
        assert(line.take(dash_prefix().len() as int) =~= dash_prefix());
        assert(line.skip(dash_prefix().len() as int) =~= uuid_str(p.members[k - 3]));
        lemma_parse_uuid_roundtrip(p.members[k - 3]);
    }
    let parsed = parse_playlist_lines(ls);
    assert(parsed matches Some(q) && q.members =~= p.members);
    assert(parsed == Some(canon_playlist(p)));
}

/// Putting a title on one line twice changes nothing more than once.
pub proof fn lemma_sanitize_idempotent(s: Seq<char>)
    ensures
        sanitize(sanitize(s)) == sanitize(s),
{
    assert(sanitize(sanitize(s)) =~= sanitize(s));
}

/// Canonicalizing a playlist is idempotent.
pub proof fn lemma_canon_playlist_idempotent(p: PlaylistView)
    ensures
        canon_playlist(canon_playlist(p)) == canon_playlist(p),
{
    lemma_sanitize_idempotent(p.title);
}

/// The title as one line: every '\n' replaced by a space.
pub fn sanitize_title(s: &String) -> (r: String)
    ensures
        r@ == sanitize(s@),
{
    let st = s.as_str();
    let n = st.unicode_len();
    let mut cs: Vec<char> = Vec::new();
    let mut i: usize = 0;
    while i < n
        invariant
            i <= n,
            n == st@.len(),
            st@ == s@,
            cs@.len() == i,
            forall|k: int| 0 <= k < i ==> cs@[k] == sanitize(s@)[k],
        decreases n - i,
    {
        let c = st.get_char(i);
        if c == '\n' {
            cs.push(' ');
        } else {
            cs.push(c);
        }
        i += 1;
    }
    let r = chars_to_string(&cs);
    proof {
        assert(cs@ =~= sanitize(s@));
    }
    r
}

/// The text of a playlist's file.
pub fn playlist_to_text(playlist: &Playlist) -> (r: String)
    ensures
        r@ == playlist_text(playlist@),
{
    let mut lines: Vec<String> = Vec::new();
    let mut l0 = String::from_str("id: ");
    let h0 = playlist.id.hyphenated();
    l0.append(h0.as_str());
    lines.push(l0);
    let mut l1 = String::from_str("title: ");
    let st = sanitize_title(&playlist.title);
    l1.append(st.as_str());
    lines.push(l1);
    lines.push(String::from_str("members:"));
    let ghost head = lines.deep_view();
    proof {
        assert(head =~= seq![
            id_prefix() + uuid_str(playlist@.id),
            title_prefix() + sanitize(playlist@.title),
            members_header(),
        ]);
    }
    let mut i: usize = 0;
    while i < playlist.members.len()
        invariant
            i <= playlist.members.len(),
            head =~= seq![
                id_prefix() + uuid_str(playlist@.id),
                title_prefix() + sanitize(playlist@.title),
                members_header(),
            ],
            lines.deep_view() =~= head + member_lines(playlist@.members, i as int),
        decreases playlist.members.len() - i,
    {
        let ghost prev = lines.deep_view();
        let mut lm = String::from_str("- ");
        let h = playlist.members[i].hyphenated();
        lm.append(h.as_str());
        lines.push(lm);
        proof {
            assert(lines.deep_view() =~= prev.push(
                dash_prefix() + uuid_str(playlist@.members[i as int]),
            ));
        }
        i += 1;
    }
    proof {
        assert(lines.deep_view() =~= playlist_lines(playlist@));
    }
    join_lines(&lines)
}

/// Parses a playlist file: the playlist exactly when the text has the
/// format's shape, a malformed-file error otherwise.
pub fn text_to_playlist(text: &str) -> (r: Result<Playlist, FileRepoError>)
    ensures
        match r {
            Ok(p) => parse_playlist_text(text@) == Some(p@),
            Err(e) => parse_playlist_text(text@) is None && e matches FileRepoError::Parse(_),
        },
{
    let lines = split_lines(text);
    let ghost ls = spec_split_lines(text@);
    if lines.len() < 3 {
        return Err(FileRepoError::Parse(String::from_str("missing id, title or members line")));
    }
    let idtxt = match strip_prefix_line(&lines[0], "id: ") {
        Some(t) => t,
        None => {
            return Err(FileRepoError::Parse(String::from_str("missing id line")));
        },
    };
    let uid = match parse_uuid_str(idtxt.as_str()) {
        Some(u) => u,
        None => {
            return Err(FileRepoError::Parse(String::from_str("invalid playlist id")));
        },
    };
    let title = match strip_prefix_line(&lines[1], "title: ") {
        Some(t) => t,
        None => {
            return Err(FileRepoError::Parse(String::from_str("missing title line")));
        },
    };
    proof {
        assert(lines.deep_view()[2] == lines@[2]@);
    }
    let ghost m = members_header().len() as int;
    match strip_prefix_line(&lines[2], "members:") {
        Some(rest) => {
            if !rest.as_str().is_empty() {
                proof {
                    assert(members_header().skip(m) =~= Seq::<char>::empty());
                    assert(ls[2] != members_header());
                }
                return Err(FileRepoError::Parse(String::from_str("missing members line")));
            }
            proof {
                assert(ls[2] =~= ls[2].take(m) + ls[2].skip(m));
                assert(ls[2].skip(m) =~= Seq::<char>::empty());
                assert(ls[2] =~= members_header());
            }
        },
        None => {
            proof {
                if ls[2] == members_header() {
                    assert(members_header().take(m) =~= members_header());
                    assert(starts_with(ls[2], "members:"@));
                }
                assert(ls[2] != members_header());
            }
            return Err(FileRepoError::Parse(String::from_str("missing members line")));
        },
    }
    proof {
        assert(lines.deep_view()[0] == lines@[0]@);
        assert(lines.deep_view()[1] == lines@[1]@);
    }
    let mut members: Vec<Uuid> = Vec::new();
    let mut k: usize = 3;
    while k < lines.len()
        invariant
            3 <= k <= lines@.len(),
            ls == lines.deep_view(),
            ls == spec_split_lines(text@),
            lines@.len() == ls.len(),
            parse_field(ls[0], id_prefix()) == Some(idtxt@),
            spec_parse_uuid(idtxt@) == Some(uid),
            parse_field(ls[1], title_prefix()) == Some(title@),
            ls[2] == members_header(),
            members@.len() == k - 3,
            forall|j: int|
                3 <= j < k ==> parse_member_line(#[trigger] ls[j]) == Some(members@[j - 3]),
        decreases lines@.len() - k,
    {
        assert(lines@[k as int]@ == ls[k as int]);
        let m = match strip_prefix_line(&lines[k], "- ") {
            Some(t) => match parse_uuid_str(t.as_str()) {
                Some(u) => u,
                None => {
                    proof {
                        assert(parse_member_line(ls[k as int]) is None);
                    }
                    return Err(FileRepoError::Parse(String::from_str("invalid member id")));
                },
            },
            None => {
                proof {
                    assert(parse_member_line(ls[k as int]) is None);
                }
                return Err(FileRepoError::Parse(String::from_str("invalid member line")));
            },
        };
        members.push(m);
        k += 1;
    }
    let p = Playlist { id: uid, title, members };
    proof {
        let q = parse_playlist_lines(ls);
        assert(q matches Some(qv) && qv.members =~= p@.members);
        assert(q == Some(p@));
    }
    Ok(p)
}

/// The value the engine stores and returns for an upserted playlist: what
/// re-reading the playlist's file produces.
pub fn canonical_playlist(playlist: &Playlist) -> (r: Playlist)
    ensures
        r@ == canon_playlist(playlist@),
{
    proof {
        lemma_playlist_roundtrip(playlist@);
    }
    let text = playlist_to_text(playlist);
    match text_to_playlist(text.as_str()) {
        Ok(p) => p,
        Err(_) => vstd::pervasive::unreached(),
    }
}

} // verus!
