use vstd::prelude::*;
use vstd::pervasive::VecAdditionalExecFns;
use crate::error::FileRepoError;
use crate::id::{Uuid, uuid_str};
use crate::model::{
    Lyric, LyricView, Playlist, PlaylistView, Summary, lyric_summary, playlist_summary,
    members_ok, invalid_member_err, check_members, summaries_of_lyrics, summaries_of_playlists,
    ids, without, contains_id, seq_without, lemma_seq_without_props, first_bad_member_at,
};
use crate::parts::{canon_lyric, canonical_lyric};
use crate::playlistfmt::{canon_playlist, canonical_playlist};

verus! {

// The repository state: what the data directory holds, one entry per
// entity file. The storage engine applies every operation to this state;
// the contracts below say exactly which state and which response each
// operation produces.

/// One entry per lyric file and one per playlist file, in scan order.
#[derive(Debug)]
pub struct RepoDb {
    pub lyrics: Vec<Lyric>,
    pub playlists: Vec<Playlist>,
}

pub ghost struct RepoView {
    pub lyrics: Seq<LyricView>,
    pub playlists: Seq<PlaylistView>,
}

impl View for RepoDb {
    type V = RepoView;

    open spec fn view(&self) -> RepoView {
        RepoView { lyrics: self.lyrics.deep_view(), playlists: self.playlists.deep_view() }
    }
}

pub open spec fn lyric_ids(v: RepoView) -> Seq<Uuid> {
    v.lyrics.map_values(|l: LyricView| l.id)
}

pub open spec fn playlist_ids(v: RepoView) -> Seq<Uuid> {
    v.playlists.map_values(|p: PlaylistView| p.id)
}

/// The first position holding the identifier, or -1.
pub open spec fn index_of_id(s: Seq<Uuid>, id: Uuid) -> int
    decreases s.len(),
{
    if s.len() == 0 {
        -1
    } else if s[0] == id {
        0
    } else {
        let r = index_of_id(s.drop_first(), id);
        if r < 0 {
            -1
        } else {
            r + 1
        }
    }
}

pub open spec fn lyric_index(v: RepoView, id: Uuid) -> int {
    index_of_id(lyric_ids(v), id)
}

pub open spec fn playlist_index(v: RepoView, id: Uuid) -> int {
    index_of_id(playlist_ids(v), id)
}

/// No two lyric files and no two playlist files share an identifier, and
/// every playlist member references an existing lyric: the state a
/// directory owned by the engine is always in.
pub open spec fn repo_wf(v: RepoView) -> bool {
    &&& forall|i: int, j: int|
        0 <= i < j < v.lyrics.len() ==> (#[trigger] v.lyrics[i]).id != (#[trigger] v.lyrics[j]).id
    &&& forall|i: int, j: int|
        0 <= i < j < v.playlists.len() ==> (#[trigger] v.playlists[i]).id
            != (#[trigger] v.playlists[j]).id
    &&& forall|i: int|
        0 <= i < v.playlists.len() ==> members_ok(
            (#[trigger] v.playlists[i]).members,
            lyric_ids(v),
        )
}

/// What `GetLyric` finds: the stored lyric under that identifier.
pub open spec fn sp_get_lyric(v: RepoView, id: Uuid) -> Option<LyricView> {
    let i = lyric_index(v, id);
    if i >= 0 {
        Some(v.lyrics[i])
    } else {
        None
    }
}

/// What `GetPlaylist` finds: the stored playlist under that identifier.
pub open spec fn sp_get_playlist(v: RepoView, id: Uuid) -> Option<PlaylistView> {
    let i = playlist_index(v, id);
    if i >= 0 {
        Some(v.playlists[i])
    } else {
        None
    }
}

/// The state after `UpsertLyric`: the canonical form of the lyric replaces
/// the entry with its identifier, or is appended; playlists are untouched.
pub open spec fn sp_upsert_lyric(v: RepoView, l: LyricView) -> RepoView {
    let c = canon_lyric(l);
    let i = lyric_index(v, l.id);
    if i >= 0 {
        RepoView { lyrics: v.lyrics.update(i, c), playlists: v.playlists }
    } else {
        RepoView { lyrics: v.lyrics.push(c), playlists: v.playlists }
    }
}

/// The state after `DeleteLyric`: the lyric's entry is gone, and its
/// identifier is filtered out of every playlist's member list; nothing
/// else moves. Deleting an absent identifier changes nothing.
pub open spec fn sp_delete_lyric(v: RepoView, id: Uuid) -> RepoView {
    let i = lyric_index(v, id);
    let lyrics = if i >= 0 {
        v.lyrics.remove(i)
    } else {
        v.lyrics
    };
    RepoView {
        lyrics,
        playlists: v.playlists.map_values(
            |p: PlaylistView|
                PlaylistView { id: p.id, title: p.title, members: seq_without(p.members, id) },
        ),
    }
}

/// Whether `UpsertPlaylist` accepts: every member names a stored lyric.
pub open spec fn sp_upsert_playlist_ok(v: RepoView, p: PlaylistView) -> bool {
    members_ok(p.members, lyric_ids(v))
}

/// The state after `UpsertPlaylist`: on acceptance the canonical form of
/// the playlist replaces the entry with its identifier or is appended; a
/// rejected upsert leaves the state exactly as it was.
pub open spec fn sp_upsert_playlist(v: RepoView, p: PlaylistView) -> RepoView {
    if !sp_upsert_playlist_ok(v, p) {
        v
    } else {
        let c = canon_playlist(p);
        let i = playlist_index(v, p.id);
        if i >= 0 {
            RepoView { lyrics: v.lyrics, playlists: v.playlists.update(i, c) }
        } else {
            RepoView { lyrics: v.lyrics, playlists: v.playlists.push(c) }
        }
    }
}

/// The state after `DeletePlaylist`: the playlist's entry is gone; nothing
/// else moves. Deleting an absent identifier changes nothing.
pub open spec fn sp_delete_playlist(v: RepoView, id: Uuid) -> RepoView {
    let i = playlist_index(v, id);
    if i >= 0 {
        RepoView { lyrics: v.lyrics, playlists: v.playlists.remove(i) }
    } else {
        v
    }
}

/// `index_of_id` finds the first occurrence, and -1 exactly on absence.
pub proof fn lemma_index_of_id_props(s: Seq<Uuid>, id: Uuid)
    ensures
        (index_of_id(s, id) == -1) <==> !s.contains(id),
        index_of_id(s, id) != -1 ==> 0 <= index_of_id(s, id) < s.len() && s[index_of_id(s, id)]
            == id && (forall|j: int| 0 <= j < index_of_id(s, id) ==> s[j] != id),
    decreases s.len(),
{
    if s.len() == 0 {
        assert(!s.contains(id));
    } else if s[0] == id {
        assert(s.contains(id));
    } else {
        let t = s.drop_first();
        lemma_index_of_id_props(t, id);
        assert(forall|j: int| 0 <= j < t.len() ==> t[j] == s[j + 1]);
        let r = index_of_id(t, id);
        if r >= 0 {
            assert(s[r + 1] == t[r]);
            assert forall|j: int| 0 <= j < r + 1 implies s[j] != id by {
                if j > 0 {
                    assert(t[j - 1] != id);
                    assert(s[j] == t[j - 1]);
                }
            }
        }
        if s.contains(id) {
            let w = choose|w: int| 0 <= w < s.len() && s[w] == id;
            assert(t[w - 1] == id);
            assert(t.contains(id));
        }
        if t.contains(id) {
            let w = choose|w: int| 0 <= w < t.len() && t[w] == id;
            assert(s[w + 1] == id);
            assert(s.contains(id));
        }
    }
}

/// A first match at `i` pins `index_of_id` to `i`.
pub proof fn lemma_index_of_id_first(s: Seq<Uuid>, id: Uuid, i: int)
    requires
        0 <= i < s.len(),
        s[i] == id,
        forall|j: int| 0 <= j < i ==> s[j] != id,
    ensures
        index_of_id(s, id) == i,
    decreases i,
{
    if i == 0 {
    } else {
        let t = s.drop_first();
        assert(forall|j: int| 0 <= j < t.len() ==> t[j] == s[j + 1]);
        lemma_index_of_id_first(t, id, i - 1);
    }
}

/// The first position among the stored lyrics holding this identifier.
fn find_lyric_index(lyrics: &Vec<Lyric>, id: Uuid) -> (r: Option<usize>)
    ensures
        match r {
            Some(i) => i < lyrics@.len() && index_of_id(
                lyrics.deep_view().map_values(|l: LyricView| l.id),
                id,
            ) == i as int,
            None => index_of_id(lyrics.deep_view().map_values(|l: LyricView| l.id), id) == -1,
        },
{
    let ghost s = lyrics.deep_view().map_values(|l: LyricView| l.id);
    let mut i: usize = 0;
    while i < lyrics.len()
        invariant
            i <= lyrics.len(),
            s == lyrics.deep_view().map_values(|l: LyricView| l.id),
            s.len() == lyrics.len(),
            forall|j: int| 0 <= j < i ==> s[j] != id,
        decreases lyrics.len() - i,
    {
        if lyrics[i].id == id {
            proof {
                assert(s[i as int] == id);
                lemma_index_of_id_first(s, id, i as int);
            }
            return Some(i);
        }
        i += 1;
    }
    proof {
        lemma_index_of_id_props(s, id);
        if s.contains(id) {
            let w = choose|w: int| 0 <= w < s.len() && s[w] == id;
            assert(s[w] != id);
        }
    }
    None
}

/// The first position among the stored playlists holding this identifier.
fn find_playlist_index(playlists: &Vec<Playlist>, id: Uuid) -> (r: Option<usize>)
    ensures
        match r {
            Some(i) => i < playlists@.len() && index_of_id(
                playlists.deep_view().map_values(|p: PlaylistView| p.id),
                id,
            ) == i as int,
            None => index_of_id(playlists.deep_view().map_values(|p: PlaylistView| p.id), id)
                == -1,
        },
{
    let ghost s = playlists.deep_view().map_values(|p: PlaylistView| p.id);
    let mut i: usize = 0;
    while i < playlists.len()
        invariant
            i <= playlists.len(),
            s == playlists.deep_view().map_values(|p: PlaylistView| p.id),
            s.len() == playlists.len(),
            forall|j: int| 0 <= j < i ==> s[j] != id,
        decreases playlists.len() - i,
    {
        if playlists[i].id == id {
            proof {
                assert(s[i as int] == id);
                lemma_index_of_id_first(s, id, i as int);
            }
            return Some(i);
        }
        i += 1;
    }
    proof {
        lemma_index_of_id_props(s, id);
        if s.contains(id) {
            let w = choose|w: int| 0 <= w < s.len() && s[w] == id;
            assert(s[w] != id);
        }
    }
    None
}

/// Upserting a lyric keeps the directory well-formed; the set of lyric
/// identifiers only ever gains the upserted one.
pub proof fn lemma_upsert_lyric_preserves(v: RepoView, l: LyricView)
    requires
        repo_wf(v),
    ensures
        repo_wf(sp_upsert_lyric(v, l)),
        lyric_index(v, l.id) >= 0 ==> lyric_ids(sp_upsert_lyric(v, l)) == lyric_ids(v),
        lyric_index(v, l.id) < 0 ==> lyric_ids(sp_upsert_lyric(v, l)) == lyric_ids(v).push(l.id),
{
    lemma_index_of_id_props(lyric_ids(v), l.id);
    let w = sp_upsert_lyric(v, l);
    let i = lyric_index(v, l.id);
    assert(canon_lyric(l).id == l.id);
    if i >= 0 {
        assert(lyric_ids(w) =~= lyric_ids(v));
        assert forall|a: int, b: int| 0 <= a < b < w.lyrics.len() implies (#[trigger] w.lyrics[a]).id
            != (#[trigger] w.lyrics[b]).id by {
            assert(w.lyrics[a].id == lyric_ids(v)[a]);
            assert(w.lyrics[b].id == lyric_ids(v)[b]);
            assert(v.lyrics[a].id != v.lyrics[b].id);
        }
    } else {
        assert(lyric_ids(w) =~= lyric_ids(v).push(l.id));
        assert(!lyric_ids(v).contains(l.id));
        assert forall|a: int, b: int| 0 <= a < b < w.lyrics.len() implies (#[trigger] w.lyrics[a]).id
            != (#[trigger] w.lyrics[b]).id by {
            if b == w.lyrics.len() - 1 {
                assert(w.lyrics[a] == v.lyrics[a]);
                if v.lyrics[a].id == l.id {
                    assert(lyric_ids(v)[a] == l.id);
                    assert(lyric_ids(v).contains(l.id));
                }
            } else {
                assert(w.lyrics[a] == v.lyrics[a]);
                assert(w.lyrics[b] == v.lyrics[b]);
            }
        }
        assert forall|k: int| 0 <= k < w.playlists.len() implies members_ok(
            (#[trigger] w.playlists[k]).members,
            lyric_ids(w),
        ) by {
            assert(members_ok(v.playlists[k].members, lyric_ids(v)));
            assert forall|j: int|
                0 <= j < w.playlists[k].members.len() implies lyric_ids(w).contains(
                #[trigger] w.playlists[k].members[j],
            ) by {
                let m = v.playlists[k].members[j];
                assert(lyric_ids(v).contains(m));
                let t = choose|t: int| 0 <= t < lyric_ids(v).len() && lyric_ids(v)[t] == m;
                assert(lyric_ids(w)[t] == m);
            }
        }
    }
}

/// Deleting a lyric keeps the directory well-formed: its own entry goes,
/// and the cascade removes exactly that identifier from member lists.
pub proof fn lemma_delete_lyric_preserves(v: RepoView, id: Uuid)
    requires
        repo_wf(v),
    ensures
        repo_wf(sp_delete_lyric(v, id)),
{
    lemma_index_of_id_props(lyric_ids(v), id);
    let w = sp_delete_lyric(v, id);
    let i = lyric_index(v, id);
    if i >= 0 {
        assert(v.lyrics[i].id == lyric_ids(v)[i]);
        assert forall|a: int, b: int| 0 <= a < b < w.lyrics.len() implies (#[trigger] w.lyrics[a]).id
            != (#[trigger] w.lyrics[b]).id by {
            let a0: int = if a < i {
                a
            } else {
                a + 1
            };
            let b0: int = if b < i {
                b
            } else {
                b + 1
            };
            assert(w.lyrics[a] == v.lyrics[a0]);
            assert(w.lyrics[b] == v.lyrics[b0]);
            assert(v.lyrics[a0].id != v.lyrics[b0].id);
        }
    }
    assert forall|a: int, b: int| 0 <= a < b < w.playlists.len() implies (#[trigger] w.playlists[a]).id
        != (#[trigger] w.playlists[b]).id by {
        assert(w.playlists[a].id == v.playlists[a].id);
        assert(w.playlists[b].id == v.playlists[b].id);
        assert(v.playlists[a].id != v.playlists[b].id);
    }
    assert forall|k: int| 0 <= k < w.playlists.len() implies members_ok(
        (#[trigger] w.playlists[k]).members,
        lyric_ids(w),
    ) by {
        let p = v.playlists[k];
        let ms = seq_without(p.members, id);
        assert(w.playlists[k].members == ms);
        lemma_seq_without_props(p.members, id);
        assert(members_ok(p.members, lyric_ids(v)));
        assert forall|j: int| 0 <= j < ms.len() implies lyric_ids(w).contains(
            #[trigger] ms[j],
        ) by {
            assert(ms[j] != id);
            assert(p.members.contains(ms[j]));
            let t = choose|t: int| 0 <= t < p.members.len() && p.members[t] == ms[j];
            assert(lyric_ids(v).contains(p.members[t]));
            let u = choose|u: int| 0 <= u < lyric_ids(v).len() && lyric_ids(v)[u] == ms[j];
            if i >= 0 {
                assert(lyric_ids(v)[i] == id);
                assert(u != i);
                let u1: int = if u < i {
                    u
                } else {
                    u - 1
                };
                if u < i {
                    assert(w.lyrics[u1] == v.lyrics[u]);
                } else {
                    assert(w.lyrics[u1] == v.lyrics[u1 + 1]);
                }
                assert(lyric_ids(w)[u1] == ms[j]);
            } else {
                assert(lyric_ids(w) =~= lyric_ids(v));
                assert(lyric_ids(w)[u] == ms[j]);
            }
        }
    }
}

/// Upserting a playlist keeps the directory well-formed: acceptance itself
/// checked that every member names a stored lyric.
pub proof fn lemma_upsert_playlist_preserves(v: RepoView, p: PlaylistView)
    requires
        repo_wf(v),
    ensures
        repo_wf(sp_upsert_playlist(v, p)),
{
    if sp_upsert_playlist_ok(v, p) {
        lemma_index_of_id_props(playlist_ids(v), p.id);
        let w = sp_upsert_playlist(v, p);
        let i = playlist_index(v, p.id);
        assert(canon_playlist(p).id == p.id);
        assert(canon_playlist(p).members == p.members);
        assert(lyric_ids(w) =~= lyric_ids(v));
        if i >= 0 {
            assert forall|a: int, b: int|
                0 <= a < b < w.playlists.len() implies (#[trigger] w.playlists[a]).id
                != (#[trigger] w.playlists[b]).id by {
                assert(w.playlists[a].id == playlist_ids(v)[a]);
                assert(w.playlists[b].id == playlist_ids(v)[b]);
                assert(v.playlists[a].id != v.playlists[b].id);
            }
            assert forall|k: int| 0 <= k < w.playlists.len() implies members_ok(
                (#[trigger] w.playlists[k]).members,
                lyric_ids(w),
            ) by {
                if k == i {
                    assert(members_ok(p.members, lyric_ids(v)));
                } else {
                    assert(w.playlists[k] == v.playlists[k]);
                    assert(members_ok(v.playlists[k].members, lyric_ids(v)));
                }
            }
        } else {
            assert(!playlist_ids(v).contains(p.id));
            assert forall|a: int, b: int|
                0 <= a < b < w.playlists.len() implies (#[trigger] w.playlists[a]).id
                != (#[trigger] w.playlists[b]).id by {
                if b == w.playlists.len() - 1 {
                    assert(w.playlists[a] == v.playlists[a]);
                    if v.playlists[a].id == p.id {
                        assert(playlist_ids(v)[a] == p.id);
                        assert(playlist_ids(v).contains(p.id));
                    }
                } else {
                    assert(w.playlists[a] == v.playlists[a]);
                    assert(w.playlists[b] == v.playlists[b]);
                }
            }
            assert forall|k: int| 0 <= k < w.playlists.len() implies members_ok(
                (#[trigger] w.playlists[k]).members,
                lyric_ids(w),
            ) by {
                if k == w.playlists.len() - 1 {
                    assert(members_ok(p.members, lyric_ids(v)));
                } else {
                    assert(w.playlists[k] == v.playlists[k]);
                    assert(members_ok(v.playlists[k].members, lyric_ids(v)));
                }
            }
        }
    }
}

/// Deleting a playlist keeps the directory well-formed.
pub proof fn lemma_delete_playlist_preserves(v: RepoView, id: Uuid)
    requires
        repo_wf(v),
    ensures
        repo_wf(sp_delete_playlist(v, id)),
{
    lemma_index_of_id_props(playlist_ids(v), id);
    let w = sp_delete_playlist(v, id);
    let i = playlist_index(v, id);
    if i >= 0 {
        assert forall|a: int, b: int| 0 <= a < b < w.playlists.len() implies (#[trigger] w.playlists[a]).id
            != (#[trigger] w.playlists[b]).id by {
            let a0: int = if a < i {
                a
            } else {
                a + 1
            };
            let b0: int = if b < i {
                b
            } else {
                b + 1
            };
            assert(w.playlists[a] == v.playlists[a0]);
            assert(w.playlists[b] == v.playlists[b0]);
            assert(v.playlists[a0].id != v.playlists[b0].id);
        }
        assert forall|k: int| 0 <= k < w.playlists.len() implies members_ok(
            (#[trigger] w.playlists[k]).members,
            lyric_ids(w),
        ) by {
            let k0: int = if k < i {
                k
            } else {
                k + 1
            };
            assert(w.playlists[k] == v.playlists[k0]);
            assert(members_ok(v.playlists[k0].members, lyric_ids(v)));
            assert(lyric_ids(w) == lyric_ids(v));
        }
    }
}

impl RepoDb {
    /// A repository over an empty directory.
    pub fn new() -> (r: RepoDb)
        ensures
            r@.lyrics.len() == 0,
            r@.playlists.len() == 0,
            repo_wf(r@),
    {
        let r = RepoDb { lyrics: Vec::new(), playlists: Vec::new() };
        proof {
            assert(r@.lyrics =~= Seq::<LyricView>::empty());
            assert(r@.playlists =~= Seq::<PlaylistView>::empty());
        }
        r
    }

    /// All stored lyrics, in order.
    pub fn get_lyrics(&self) -> (r: Vec<Lyric>)
        ensures
            r.deep_view() == self@.lyrics,
    {
        let mut r: Vec<Lyric> = Vec::new();
        let mut i: usize = 0;
        while i < self.lyrics.len()
            invariant
                i <= self.lyrics.len(),
                r@.len() == i,
                forall|j: int| 0 <= j < i ==> r@[j]@ == self.lyrics@[j]@,
            decreases self.lyrics.len() - i,
        {
            r.push(self.lyrics[i].clone());
            i += 1;
        }
        proof {
            assert(r.deep_view() =~= self@.lyrics);
        }
        r
    }

    /// The summaries of all stored lyrics, in order.
    pub fn get_lyric_summaries(&self) -> (r: Vec<Summary>)
        ensures
            r.deep_view() == self@.lyrics.map_values(|l: LyricView| lyric_summary(l)),
    {
        summaries_of_lyrics(&self.lyrics)
    }

    /// The stored lyric under the identifier, or `NotFound`.
    pub fn get_lyric(&self, id: Uuid) -> (r: Result<Lyric, FileRepoError>)
        ensures
            match sp_get_lyric(self@, id) {
                Some(l) => r matches Ok(rl) && rl@ == l,
                None => r matches Err(e) && (e matches FileRepoError::NotFound(s) && s@
                    == uuid_str(id)),
            },
    {
        match find_lyric_index(&self.lyrics, id) {
            Some(i) => Ok(self.lyrics[i].clone()),
            None => Err(FileRepoError::NotFound(id.hyphenated())),
        }
    }

    /// All stored playlists, in order.
    pub fn get_playlists(&self) -> (r: Vec<Playlist>)
        ensures
            r.deep_view() == self@.playlists,
    {
        let mut r: Vec<Playlist> = Vec::new();
        let mut i: usize = 0;
        while i < self.playlists.len()
            invariant
                i <= self.playlists.len(),
                r@.len() == i,
                forall|j: int| 0 <= j < i ==> r@[j]@ == self.playlists@[j]@,
            decreases self.playlists.len() - i,
        {
            r.push(self.playlists[i].clone());
            i += 1;
        }
        proof {
            assert(r.deep_view() =~= self@.playlists);
        }
        r
    }

    /// The summaries of all stored playlists, in order.
    pub fn get_playlist_summaries(&self) -> (r: Vec<Summary>)
        ensures
            r.deep_view() == self@.playlists.map_values(|p: PlaylistView| playlist_summary(p)),
    {
        summaries_of_playlists(&self.playlists)
    }

    /// The stored playlist under the identifier, or `NotFound`.
    pub fn get_playlist(&self, id: Uuid) -> (r: Result<Playlist, FileRepoError>)
        ensures
            match sp_get_playlist(self@, id) {
                Some(p) => r matches Ok(rp) && rp@ == p,
                None => r matches Err(e) && (e matches FileRepoError::NotFound(s) && s@
                    == uuid_str(id)),
            },
    {
        match find_playlist_index(&self.playlists, id) {
            Some(i) => Ok(self.playlists[i].clone()),
            None => Err(FileRepoError::NotFound(id.hyphenated())),
        }
    }

    /// Stores the canonical form of the lyric under its identifier —
    /// overwriting the entry that held it, or appending a new one — and
    /// returns exactly what re-reading the written file produces. Always
    /// succeeds; playlists are untouched.
    pub fn upsert_lyric(&mut self, lyric: Lyric) -> (r: Result<Lyric, FileRepoError>)
        requires
            repo_wf(old(self)@),
        ensures
            repo_wf(final(self)@),
            final(self)@ == sp_upsert_lyric(old(self)@, lyric@),
            r matches Ok(rl) && rl@ == canon_lyric(lyric@),
    {
        proof {
            lemma_upsert_lyric_preserves(old(self)@, lyric@);
        }
        let c = canonical_lyric(&lyric);
        let stored = c.clone();
        match find_lyric_index(&self.lyrics, lyric.id) {
            Some(i) => {
                self.lyrics.set(i, stored);
                proof {
                    assert(self@.lyrics =~= old(self)@.lyrics.update(
                        lyric_index(old(self)@, lyric@.id),
                        canon_lyric(lyric@),
                    ));
                    assert(self@ == sp_upsert_lyric(old(self)@, lyric@));
                }
            },
            None => {
                self.lyrics.push(stored);
                proof {
                    assert(self@.lyrics =~= old(self)@.lyrics.push(canon_lyric(lyric@)));
                    assert(self@ == sp_upsert_lyric(old(self)@, lyric@));
                }
            },
        }
        Ok(c)
    }

    /// Removes the lyric's entry — absence is not an error — and then, as
    /// a cascade, rewrites every playlist that references it with that
    /// identifier filtered out of the member list; no other member and no
    /// playlist order is affected.
    pub fn delete_lyric(&mut self, id: Uuid) -> (r: Result<(), FileRepoError>)
        requires
            repo_wf(old(self)@),
        ensures
            repo_wf(final(self)@),
            final(self)@ == sp_delete_lyric(old(self)@, id),
            r == Ok::<(), FileRepoError>(()),
    {
        proof {
            lemma_delete_lyric_preserves(old(self)@, id);
        }
        match find_lyric_index(&self.lyrics, id) {
            Some(i) => {
                self.lyrics.remove(i);
                proof {
                    assert(self@.lyrics =~= old(self)@.lyrics.remove(
                        lyric_index(old(self)@, id),
                    ));
                }
            },
            None => {},
        }
        let mut k: usize = 0;
        while k < self.playlists.len()
            invariant
                k <= self.playlists.len(),
                self.playlists@.len() == old(self).playlists@.len(),
                self@.lyrics == sp_delete_lyric(old(self)@, id).lyrics,
                forall|j: int|
                    0 <= j < k ==> self.playlists@[j]@ == (PlaylistView {
                        id: old(self).playlists@[j]@.id,
                        title: old(self).playlists@[j]@.title,
                        members: seq_without(old(self).playlists@[j]@.members, id),
                    }),
                forall|j: int|
                    k <= j < self.playlists@.len() ==> self.playlists@[j]@ == old(
                        self,
                    ).playlists@[j]@,
            decreases self.playlists.len() - k,
        {
            if contains_id(&self.playlists[k].members, id) {
                let np = Playlist {
                    id: self.playlists[k].id,
                    title: self.playlists[k].title.clone(),
                    members: without(&self.playlists[k].members, id),
                };
                self.playlists.set(k, np);
            } else {
                proof {
                    let ms = self.playlists@[k as int]@.members;
                    assert forall|j: int| 0 <= j < ms.len() implies (#[trigger] ms[j]) != id by {
                        if ms[j] == id {
                            assert(ms.contains(id));
                        }
                    }
                    crate::model::lemma_seq_without_absent(ms, id);
                }
            }
            k += 1;
        }
        proof {
            assert(self@.playlists =~= sp_delete_lyric(old(self)@, id).playlists);
            assert(self@ == sp_delete_lyric(old(self)@, id));
        }
        Ok(())
    }

    /// Accepts the playlist exactly when every member names a stored
    /// lyric, then stores and returns its canonical form, as re-reading
    /// the written file produces it. A rejected upsert reports the first
    /// offending member and writes nothing.
    pub fn upsert_playlist(&mut self, playlist: Playlist) -> (r: Result<Playlist, FileRepoError>)
        requires
            repo_wf(old(self)@),
        ensures
            repo_wf(final(self)@),
            final(self)@ == sp_upsert_playlist(old(self)@, playlist@),
            sp_upsert_playlist_ok(old(self)@, playlist@) ==> (r matches Ok(rp) && rp@
                == canon_playlist(playlist@)),
            !sp_upsert_playlist_ok(old(self)@, playlist@) ==> invalid_member_err(
                r,
                playlist@,
                lyric_ids(old(self)@),
            ),
    {
        proof {
            lemma_upsert_playlist_preserves(old(self)@, playlist@);
        }
        let summaries = summaries_of_lyrics(&self.lyrics);
        let lyr_ids = ids(&summaries);
        proof {
            assert(lyr_ids@ =~= lyric_ids(self@));
        }
        match check_members(&playlist, &lyr_ids) {
            Err(e) => {
                proof {
                    let j = choose|j: int|
                        first_bad_member_at(playlist@, lyr_ids@, j, e);
                    assert(first_bad_member_at(playlist@, lyric_ids(old(self)@), j, e));
                }
                Err(e)
            },
            Ok(_) => {
                let c = canonical_playlist(&playlist);
                let stored = c.clone();
                match find_playlist_index(&self.playlists, playlist.id) {
                    Some(i) => {
                        self.playlists.set(i, stored);
                        proof {
                            assert(self@.playlists =~= old(self)@.playlists.update(
                                playlist_index(old(self)@, playlist@.id),
                                canon_playlist(playlist@),
                            ));
                            assert(self@ == sp_upsert_playlist(old(self)@, playlist@));
                        }
                    },
                    None => {
                        self.playlists.push(stored);
                        proof {
                            assert(self@.playlists =~= old(self)@.playlists.push(
                                canon_playlist(playlist@),
                            ));
                            assert(self@ == sp_upsert_playlist(old(self)@, playlist@));
                        }
                    },
                }
                Ok(c)
            },
        }
    }

    /// Removes the playlist's entry; absence is not an error, and nothing
    /// else moves.
    pub fn delete_playlist(&mut self, id: Uuid) -> (r: Result<(), FileRepoError>)
        requires
            repo_wf(old(self)@),
        ensures
            repo_wf(final(self)@),
            final(self)@ == sp_delete_playlist(old(self)@, id),
            r == Ok::<(), FileRepoError>(()),
    {
        proof {
            lemma_delete_playlist_preserves(old(self)@, id);
        }
        match find_playlist_index(&self.playlists, id) {
            Some(i) => {
                self.playlists.remove(i);
                proof {
                    assert(self@.playlists =~= old(self)@.playlists.remove(
                        playlist_index(old(self)@, id),
                    ));
                    assert(self@ == sp_delete_playlist(old(self)@, id));
                }
            },
            None => {
                proof {
                    assert(self@ == sp_delete_playlist(old(self)@, id));
                }
            },
        }
        Ok(())
    }
}

} // verus!
