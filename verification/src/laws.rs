use vstd::prelude::*;
use crate::id::Uuid;
use crate::model::{
    LyricView, PlaylistView, seq_without, lemma_seq_without_props, lemma_seq_without_idempotent,
};
use crate::parts::{canon_lyric, wf_lyric, lemma_lyric_roundtrip, lemma_canon_idempotent};
use crate::playlistfmt::{canon_playlist, sanitize, lemma_canon_playlist_idempotent};
use crate::repo::{
    RepoView, repo_wf, lyric_ids, playlist_ids, lyric_index, playlist_index,
    sp_get_lyric, sp_get_playlist, sp_upsert_lyric, sp_delete_lyric, sp_upsert_playlist,
    sp_upsert_playlist_ok, sp_delete_playlist, lemma_index_of_id_props, lemma_index_of_id_first,
    lemma_upsert_lyric_preserves, lemma_delete_lyric_preserves, lemma_upsert_playlist_preserves,
};
use crate::transaction::{TransactionView, canon_tx, sp_apply, sp_replay};

verus! {

// What holds of the repository across operations: the laws the storage
// contract promises, stated over the same spec functions the operations'
// own contracts use.

/// The repository over an empty directory.
pub open spec fn empty_repo() -> RepoView {
    RepoView { lyrics: seq![], playlists: seq![] }
}

/// After an accepted lyric upsert, a get under that identifier returns
/// exactly what re-reading the written file produces — the canonical
/// form — and for a well-formed lyric that is the lyric itself.
pub proof fn lemma_upsert_lyric_then_get(v: RepoView, l: LyricView)
    requires
        repo_wf(v),
    ensures
        sp_get_lyric(sp_upsert_lyric(v, l), l.id) == Some(canon_lyric(l)),
        wf_lyric(l) ==> sp_get_lyric(sp_upsert_lyric(v, l), l.id) == Some(l),
{
    lemma_index_of_id_props(lyric_ids(v), l.id);
    lemma_upsert_lyric_preserves(v, l);
    let w = sp_upsert_lyric(v, l);
    let i = lyric_index(v, l.id);
    if i >= 0 {
        assert(lyric_index(w, l.id) == i);
        assert(w.lyrics[i] == canon_lyric(l));
    } else {
        let n = lyric_ids(v).len() as int;
        assert(lyric_ids(w) == lyric_ids(v).push(l.id));
        assert(lyric_ids(w)[n] == l.id);
        assert forall|j: int| 0 <= j < n implies lyric_ids(w)[j] != l.id by {
            assert(lyric_ids(w)[j] == lyric_ids(v)[j]);
            if lyric_ids(v)[j] == l.id {
                assert(lyric_ids(v).contains(l.id));
            }
        }
        lemma_index_of_id_first(lyric_ids(w), l.id, n);
        assert(w.lyrics[n] == canon_lyric(l));
    }
    if wf_lyric(l) {
        lemma_lyric_roundtrip(l);
    }
}

/// Deleting a lyric rewrites every playlist that referenced it with
/// exactly that identifier removed and the member order kept: afterwards
/// a get of any stored playlist finds it without the deleted identifier
/// and with every other member untouched.
pub proof fn lemma_delete_lyric_cascades(v: RepoView, lid: Uuid, pid: Uuid)
    requires
        repo_wf(v),
        sp_get_playlist(v, pid) is Some,
    ensures
        sp_get_playlist(sp_delete_lyric(v, lid), pid) == Some(
            PlaylistView {
                id: sp_get_playlist(v, pid)->Some_0.id,
                title: sp_get_playlist(v, pid)->Some_0.title,
                members: seq_without(sp_get_playlist(v, pid)->Some_0.members, lid),
            },
        ),
        !(sp_get_playlist(sp_delete_lyric(v, lid), pid)->Some_0.members.contains(lid)),
{
    let w = sp_delete_lyric(v, lid);
    let i = playlist_index(v, pid);
    lemma_index_of_id_props(playlist_ids(v), pid);
    assert(playlist_ids(w) =~= playlist_ids(v));
    assert(playlist_index(w, pid) == i);
    let p = v.playlists[i];
    assert(w.playlists[i] == (PlaylistView {
        id: p.id,
        title: p.title,
        members: seq_without(p.members, lid),
    }));
    lemma_seq_without_props(p.members, lid);
    let ms = seq_without(p.members, lid);
    if ms.contains(lid) {
        let j = choose|j: int| 0 <= j < ms.len() && ms[j] == lid;
        assert(ms[j] != lid);
    }
}

/// Deleting a lyric twice in a row is the same as deleting it once, and
/// both calls succeed: the second pass finds neither the lyric's entry nor
/// any member referencing it.
pub proof fn lemma_delete_lyric_idempotent(v: RepoView, id: Uuid)
    requires
        repo_wf(v),
    ensures
        sp_delete_lyric(sp_delete_lyric(v, id), id) == sp_delete_lyric(v, id),
{
    lemma_delete_lyric_preserves(v, id);
    lemma_index_of_id_props(lyric_ids(v), id);
    let w = sp_delete_lyric(v, id);
    let i = lyric_index(v, id);
    assert forall|j: int| 0 <= j < lyric_ids(w).len() implies lyric_ids(w)[j] != id by {
        if i >= 0 {
            let j0: int = if j < i {
                j
            } else {
                j + 1
            };
            assert(w.lyrics[j] == v.lyrics[j0]);
            assert(v.lyrics[i].id == id);
            if j0 != i && v.lyrics[j0].id == id {
                if j0 < i {
                    assert(v.lyrics[j0].id != v.lyrics[i].id);
                } else {
                    assert(v.lyrics[i].id != v.lyrics[j0].id);
                }
            }
        } else {
            assert(lyric_ids(w) =~= lyric_ids(v));
            if lyric_ids(v)[j] == id {
                assert(lyric_ids(v).contains(id));
            }
        }
    }
    if lyric_ids(w).contains(id) {
        let j = choose|j: int| 0 <= j < lyric_ids(w).len() && lyric_ids(w)[j] == id;
        assert(lyric_ids(w)[j] != id);
    }
    lemma_index_of_id_props(lyric_ids(w), id);
    assert(lyric_index(w, id) == -1);
    let w2 = sp_delete_lyric(w, id);
    assert(w2.lyrics == w.lyrics);
    assert forall|k: int| 0 <= k < w.playlists.len() implies w2.playlists[k]
        == w.playlists[k] by {
        lemma_seq_without_idempotent(v.playlists[k].members, id);
    }
    assert(w2.playlists =~= w.playlists);
}

/// Deleting a playlist twice in a row is the same as deleting it once,
/// and both calls succeed.
pub proof fn lemma_delete_playlist_idempotent(v: RepoView, id: Uuid)
    requires
        repo_wf(v),
    ensures
        sp_delete_playlist(sp_delete_playlist(v, id), id) == sp_delete_playlist(v, id),
{
    lemma_index_of_id_props(playlist_ids(v), id);
    let w = sp_delete_playlist(v, id);
    let i = playlist_index(v, id);
    if i >= 0 {
        assert forall|j: int| 0 <= j < playlist_ids(w).len() implies playlist_ids(w)[j] != id by {
            let j0: int = if j < i {
                j
            } else {
                j + 1
            };
            assert(w.playlists[j] == v.playlists[j0]);
            assert(v.playlists[i].id == id);
            if j0 != i && v.playlists[j0].id == id {
                if j0 < i {
                    assert(v.playlists[j0].id != v.playlists[i].id);
                } else {
                    assert(v.playlists[i].id != v.playlists[j0].id);
                }
            }
        }
        if playlist_ids(w).contains(id) {
            let j = choose|j: int| 0 <= j < playlist_ids(w).len() && playlist_ids(w)[j] == id;
            assert(playlist_ids(w)[j] != id);
        }
        lemma_index_of_id_props(playlist_ids(w), id);
        assert(playlist_index(w, id) == -1);
    }
}

/// The state after upserting the first `i` of a batch of lyrics, one at a
/// time, in order — how the single worker serializes concurrent upserts.
pub open spec fn sp_upsert_lyrics(v: RepoView, ls: Seq<LyricView>, i: int) -> RepoView
    decreases i,
{
    if i <= 0 {
        v
    } else {
        sp_upsert_lyric(sp_upsert_lyrics(v, ls, i - 1), ls[i - 1])
    }
}

/// A batch of lyric upserts with pairwise distinct identifiers, none of
/// them stored yet, all land: afterwards the lyric list holds the prior
/// entries followed by the new ones in arrival order, so each new
/// identifier is listed exactly once.
pub proof fn lemma_upsert_distinct_lyrics(v: RepoView, ls: Seq<LyricView>, i: int)
    requires
        repo_wf(v),
        0 <= i <= ls.len(),
        forall|a: int, b: int| 0 <= a < b < ls.len() ==> (#[trigger] ls[a]).id != (#[trigger] ls[b]).id,
        forall|a: int| 0 <= a < ls.len() ==> !lyric_ids(v).contains((#[trigger] ls[a]).id),
    ensures
        repo_wf(sp_upsert_lyrics(v, ls, i)),
        lyric_ids(sp_upsert_lyrics(v, ls, i)) == lyric_ids(v) + ls.take(i).map_values(
            |l: LyricView| l.id,
        ),
    decreases i,
{
    if i == 0 {
        assert(lyric_ids(v) + ls.take(0).map_values(|l: LyricView| l.id) =~= lyric_ids(v));
    } else {
        lemma_upsert_distinct_lyrics(v, ls, i - 1);
        let w = sp_upsert_lyrics(v, ls, i - 1);
        let prev = lyric_ids(v) + ls.take(i - 1).map_values(|l: LyricView| l.id);
        assert(lyric_ids(w) == prev);
        assert forall|j: int| 0 <= j < prev.len() implies prev[j] != ls[i - 1].id by {
            if j < lyric_ids(v).len() {
                assert(prev[j] == lyric_ids(v)[j]);
                if lyric_ids(v)[j] == ls[i - 1].id {
                    assert(lyric_ids(v).contains(ls[i - 1].id));
                }
            } else {
                let a = j - lyric_ids(v).len();
                assert(prev[j] == ls[a].id);
            }
        }
        if lyric_ids(w).contains(ls[i - 1].id) {
            let j = choose|j: int|
                0 <= j < lyric_ids(w).len() && lyric_ids(w)[j] == ls[i - 1].id;
            assert(prev[j] != ls[i - 1].id);
        }
        lemma_index_of_id_props(lyric_ids(w), ls[i - 1].id);
        lemma_upsert_lyric_preserves(w, ls[i - 1]);
        assert(lyric_ids(sp_upsert_lyrics(v, ls, i)) == prev.push(ls[i - 1].id));
        assert(prev.push(ls[i - 1].id) =~= lyric_ids(v) + ls.take(i).map_values(
            |l: LyricView| l.id,
        ));
    }
}

/// Replay is idempotent: re-applying an already-applied mutation is
/// harmless, because an upsert overwrites an entry with the very value it
/// stored and a delete removes what is already gone.
pub proof fn lemma_apply_twice(v: RepoView, t: TransactionView)
    requires
        repo_wf(v),
    ensures
        sp_apply(sp_apply(v, t), t) == sp_apply(v, t),
{
    match t {
        TransactionView::UpsertLyric(l) => {
            lemma_index_of_id_props(lyric_ids(v), l.id);
            lemma_upsert_lyric_preserves(v, l);
            let w = sp_upsert_lyric(v, l);
            let c = canon_lyric(l);
            let i = lyric_index(v, l.id);
            let i2: int = if i >= 0 {
                i
            } else {
                lyric_ids(v).len() as int
            };
            assert(lyric_ids(w)[i2] == l.id);
            assert forall|j: int| 0 <= j < i2 implies lyric_ids(w)[j] != l.id by {
                if i >= 0 {
                    lemma_index_of_id_props(lyric_ids(v), l.id);
                } else {
                    assert(lyric_ids(w)[j] == lyric_ids(v)[j]);
                    if lyric_ids(v)[j] == l.id {
                        assert(lyric_ids(v).contains(l.id));
                    }
                }
            }
            lemma_index_of_id_first(lyric_ids(w), l.id, i2);
            assert(w.lyrics[i2] == c);
            assert(w.lyrics.update(i2, c) =~= w.lyrics);
        },
        TransactionView::DeleteLyric(id) => {
            lemma_delete_lyric_idempotent(v, id);
        },
        TransactionView::UpsertPlaylist(p) => {
            lemma_index_of_id_props(playlist_ids(v), p.id);
            lemma_upsert_playlist_preserves(v, p);
            let w = sp_upsert_playlist(v, p);
            if sp_upsert_playlist_ok(v, p) {
                assert(lyric_ids(w) =~= lyric_ids(v));
                assert(sp_upsert_playlist_ok(w, p));
                let c = canon_playlist(p);
                let i = playlist_index(v, p.id);
                let i2: int = if i >= 0 {
                    i
                } else {
                    playlist_ids(v).len() as int
                };
                assert(playlist_ids(w)[i2] == p.id) by {
                    if i >= 0 {
                        assert(w.playlists[i] == c);
                    }
                }
                assert forall|j: int| 0 <= j < i2 implies playlist_ids(w)[j] != p.id by {
                    if i >= 0 {
                        assert(playlist_ids(w)[j] == playlist_ids(v)[j]);
                    } else {
                        assert(playlist_ids(w)[j] == playlist_ids(v)[j]);
                        if playlist_ids(v)[j] == p.id {
                            assert(playlist_ids(v).contains(p.id));
                        }
                    }
                }
                lemma_index_of_id_first(playlist_ids(w), p.id, i2);
                assert(w.playlists[i2] == c);
                assert(w.playlists.update(i2, c) =~= w.playlists);
            }
        },
        TransactionView::DeletePlaylist(id) => {
            lemma_delete_playlist_idempotent(v, id);
        },
    }
}

/// A decoded log entry moves the state exactly as the mutation it
/// recorded: the entry carries the entity's file text, what it parses
/// back to canonicalizes to the same stored value.
pub proof fn lemma_apply_decoded(v: RepoView, t: TransactionView)
    requires
        repo_wf(v),
    ensures
        sp_apply(v, canon_tx(t)) == sp_apply(v, t),
{
    match t {
        TransactionView::UpsertLyric(l) => {
            lemma_canon_idempotent(l);
            assert(canon_lyric(l).id == l.id);
        },
        TransactionView::DeleteLyric(_) => {},
        TransactionView::UpsertPlaylist(p) => {
            lemma_canon_playlist_idempotent(p);
            assert(canon_playlist(p).id == p.id);
            assert(canon_playlist(p).members == p.members);
        },
        TransactionView::DeletePlaylist(_) => {},
    }
}

/// Every mutation keeps the directory well-formed.
pub proof fn lemma_apply_preserves(v: RepoView, t: TransactionView)
    requires
        repo_wf(v),
    ensures
        repo_wf(sp_apply(v, t)),
{
    match t {
        TransactionView::UpsertLyric(l) => {
            lemma_upsert_lyric_preserves(v, l);
        },
        TransactionView::DeleteLyric(id) => {
            lemma_delete_lyric_preserves(v, id);
        },
        TransactionView::UpsertPlaylist(p) => {
            lemma_upsert_playlist_preserves(v, p);
        },
        TransactionView::DeletePlaylist(id) => {
            crate::repo::lemma_delete_playlist_preserves(v, id);
        },
    }
}

/// Recovery reproduces the live state: replaying the transactions read
/// back from a written log — the canonical images, in commit order —
/// ends in exactly the state the original mutations built, whatever the
/// mutations held.
pub proof fn lemma_replay_reproduces(v: RepoView, ts: Seq<TransactionView>, i: int)
    requires
        repo_wf(v),
        0 <= i <= ts.len(),
    ensures
        repo_wf(sp_replay(v, ts, i)),
        sp_replay(v, ts.map_values(|t: TransactionView| canon_tx(t)), i) == sp_replay(v, ts, i),
    decreases i,
{
    if i > 0 {
        lemma_replay_reproduces(v, ts, i - 1);
        let w = sp_replay(v, ts, i - 1);
        lemma_apply_preserves(w, ts[i - 1]);
        lemma_apply_decoded(w, ts[i - 1]);
        assert(ts.map_values(|t: TransactionView| canon_tx(t))[i - 1] == canon_tx(ts[i - 1]));
    }
}

/// Recovery: replaying a log that upserts a lyric, then a playlist whose
/// members all reference it, then deletes the lyric, leaves the playlist
/// stored with no members and the lyric gone — a get finds the playlist
/// emptied and reports the lyric as not found.
pub proof fn lemma_replay_recovers(a: LyricView, p: PlaylistView)
    requires
        wf_lyric(a),
        forall|j: int| 0 <= j < p.members.len() ==> p.members[j] == a.id,
    ensures
        ({
            let ts = seq![
                TransactionView::UpsertLyric(a),
                TransactionView::UpsertPlaylist(p),
                TransactionView::DeleteLyric(a.id),
            ];
            let w = sp_replay(empty_repo(), ts, 3);
            &&& sp_get_playlist(w, p.id) == Some(
                PlaylistView { id: p.id, title: sanitize(p.title), members: Seq::<Uuid>::empty() },
            )
            &&& sp_get_lyric(w, a.id) is None
        }),
{
    reveal_with_fuel(sp_replay, 5);
    let ts = seq![
        TransactionView::UpsertLyric(a),
        TransactionView::UpsertPlaylist(p),
        TransactionView::DeleteLyric(a.id),
    ];
    let v0 = empty_repo();
    assert(repo_wf(v0));
    let v1 = sp_upsert_lyric(v0, a);
    lemma_upsert_lyric_preserves(v0, a);
    lemma_index_of_id_props(lyric_ids(v0), a.id);
    lemma_lyric_roundtrip(a);
    assert(v1.lyrics =~= seq![a]);
    assert(v1.playlists =~= Seq::<PlaylistView>::empty());
    let v2 = sp_upsert_playlist(v1, p);
    assert(lyric_ids(v1)[0] == a.id);
    assert forall|j: int| 0 <= j < p.members.len() implies lyric_ids(v1).contains(
        #[trigger] p.members[j],
    ) by {
        assert(lyric_ids(v1)[0] == p.members[j]);
    }
    assert(sp_upsert_playlist_ok(v1, p));
    lemma_upsert_playlist_preserves(v1, p);
    lemma_index_of_id_props(playlist_ids(v1), p.id);
    assert(v2.playlists =~= seq![canon_playlist(p)]);
    assert(v2.lyrics =~= seq![a]);
    let v3 = sp_delete_lyric(v2, a.id);
    lemma_delete_lyric_preserves(v2, a.id);
    assert(lyric_ids(v2)[0] == a.id);
    lemma_index_of_id_first(lyric_ids(v2), a.id, 0);
    assert(v3.lyrics =~= Seq::<LyricView>::empty());
    let ms = seq_without(p.members, a.id);
    lemma_seq_without_props(p.members, a.id);
    assert(ms =~= Seq::<Uuid>::empty()) by {
        if ms.len() > 0 {
            assert(ms[0] != a.id);
            assert(p.members.contains(ms[0]));
            let j = choose|j: int| 0 <= j < p.members.len() && p.members[j] == ms[0];
            assert(p.members[j] == a.id);
        }
    }
    assert(v3.playlists =~= seq![
        PlaylistView { id: p.id, title: sanitize(p.title), members: Seq::<Uuid>::empty() },
    ]);
    assert(sp_replay(v0, ts, 3) == v3);
    assert(playlist_ids(v3)[0] == p.id);
    lemma_index_of_id_first(playlist_ids(v3), p.id, 0);
    assert(lyric_ids(v3).len() == 0);
    lemma_index_of_id_props(lyric_ids(v3), a.id);
}

} // verus!
