use vstd::prelude::*;
use crate::error::FileRepoError;
use crate::id::{Uuid, uuid_str};
use crate::model::{
    Lyric, LyricView, Playlist, PlaylistView, Summary, SummaryView, lyric_summary,
    playlist_summary, invalid_member_err, seq_without,
    contains_id, without,
};
use crate::parts::{canon_lyric, lyric_text, lyric_to_text};
use crate::playlistfmt::{canon_playlist, playlist_text, playlist_to_text};
use crate::repo::{
    RepoDb, RepoView, repo_wf, sp_get_lyric, sp_get_playlist, sp_upsert_lyric, sp_delete_lyric,
    sp_upsert_playlist, sp_upsert_playlist_ok, sp_delete_playlist, lyric_ids,
};
use crate::transaction::{Transaction, TransactionView};

verus! {

// The storage actor's command protocol. Every repository operation becomes
// one command; the single worker takes commands in arrival order and hands
// each to `handle_request`, which applies it to the state and says which
// response to send back, which files to write or remove, and whether the
// worker is to stop. The worker performs no decision of its own.

/// One command, as the callers enqueue it.
#[derive(Debug)]
pub enum Request {
    LyricSummaries,
    LyricList,
    LyricItem(Uuid),
    LyricDelete(Uuid),
    LyricPost(Lyric),
    PlaylistSummaries,
    PlaylistList,
    PlaylistItem(Uuid),
    PlaylistDelete(Uuid),
    PlaylistPost(Playlist),
    Stop,
}

pub ghost enum RequestView {
    LyricSummaries,
    LyricList,
    LyricItem(Uuid),
    LyricDelete(Uuid),
    LyricPost(LyricView),
    PlaylistSummaries,
    PlaylistList,
    PlaylistItem(Uuid),
    PlaylistDelete(Uuid),
    PlaylistPost(PlaylistView),
    Stop,
}

impl View for Request {
    type V = RequestView;

    open spec fn view(&self) -> RequestView {
        match self {
            Request::LyricSummaries => RequestView::LyricSummaries,
            Request::LyricList => RequestView::LyricList,
            Request::LyricItem(id) => RequestView::LyricItem(*id),
            Request::LyricDelete(id) => RequestView::LyricDelete(*id),
            Request::LyricPost(l) => RequestView::LyricPost(l@),
            Request::PlaylistSummaries => RequestView::PlaylistSummaries,
            Request::PlaylistList => RequestView::PlaylistList,
            Request::PlaylistItem(id) => RequestView::PlaylistItem(*id),
            Request::PlaylistDelete(id) => RequestView::PlaylistDelete(*id),
            Request::PlaylistPost(p) => RequestView::PlaylistPost(p@),
            Request::Stop => RequestView::Stop,
        }
    }
}

/// The one response a command produces.
#[derive(Debug)]
pub enum Response {
    Lyrics(Result<Vec<Lyric>, FileRepoError>),
    Summaries(Result<Vec<Summary>, FileRepoError>),
    Lyric(Result<Lyric, FileRepoError>),
    Playlists(Result<Vec<Playlist>, FileRepoError>),
    Playlist(Result<Playlist, FileRepoError>),
    Unit(Result<(), FileRepoError>),
}

pub ghost enum ResponseView {
    Lyrics(Result<Seq<LyricView>, FileRepoError>),
    Summaries(Result<Seq<SummaryView>, FileRepoError>),
    Lyric(Result<LyricView, FileRepoError>),
    Playlists(Result<Seq<PlaylistView>, FileRepoError>),
    Playlist(Result<PlaylistView, FileRepoError>),
    Unit(Result<(), FileRepoError>),
}

impl View for Response {
    type V = ResponseView;

    open spec fn view(&self) -> ResponseView {
        match self {
            Response::Lyrics(r) => ResponseView::Lyrics(
                match r {
                    Ok(v) => Ok(v.deep_view()),
                    Err(e) => Err(*e),
                },
            ),
            Response::Summaries(r) => ResponseView::Summaries(
                match r {
                    Ok(v) => Ok(v.deep_view()),
                    Err(e) => Err(*e),
                },
            ),
            Response::Lyric(r) => ResponseView::Lyric(
                match r {
                    Ok(l) => Ok(l@),
                    Err(e) => Err(*e),
                },
            ),
            Response::Playlists(r) => ResponseView::Playlists(
                match r {
                    Ok(v) => Ok(v.deep_view()),
                    Err(e) => Err(*e),
                },
            ),
            Response::Playlist(r) => ResponseView::Playlist(
                match r {
                    Ok(p) => Ok(p@),
                    Err(e) => Err(*e),
                },
            ),
            Response::Unit(r) => ResponseView::Unit(*r),
        }
    }
}

/// One file effect of a command, carrying the full text to write, so that
/// the worker only performs it.
#[derive(Debug)]
pub enum FileAction {
    WriteLyric(Uuid, String),
    WritePlaylist(Uuid, String),
    RemoveLyric(Uuid),
    RemovePlaylist(Uuid),
}

pub ghost enum FileActionView {
    WriteLyric(Uuid, Seq<char>),
    WritePlaylist(Uuid, Seq<char>),
    RemoveLyric(Uuid),
    RemovePlaylist(Uuid),
}

impl View for FileAction {
    type V = FileActionView;

    open spec fn view(&self) -> FileActionView {
        match self {
            FileAction::WriteLyric(id, t) => FileActionView::WriteLyric(*id, t@),
            FileAction::WritePlaylist(id, t) => FileActionView::WritePlaylist(*id, t@),
            FileAction::RemoveLyric(id) => FileActionView::RemoveLyric(*id),
            FileAction::RemovePlaylist(id) => FileActionView::RemovePlaylist(*id),
        }
    }
}

impl DeepView for FileAction {
    type V = FileActionView;

    open spec fn deep_view(&self) -> FileActionView {
        self@
    }
}

/// The state a command moves the repository to; reads and `Stop` move it
/// nowhere.
pub open spec fn sp_step(v: RepoView, req: RequestView) -> RepoView {
    match req {
        RequestView::LyricPost(l) => sp_upsert_lyric(v, l),
        RequestView::LyricDelete(id) => sp_delete_lyric(v, id),
        RequestView::PlaylistPost(p) => sp_upsert_playlist(v, p),
        RequestView::PlaylistDelete(id) => sp_delete_playlist(v, id),
        _ => v,
    }
}

/// The rewrites the cascade of `DeleteLyric` performs on the first `k`
/// playlists: every playlist that references the identifier is written
/// anew with it removed, in list order.
pub open spec fn cascade_upto(ps: Seq<PlaylistView>, id: Uuid, k: int) -> Seq<FileActionView>
    decreases k,
{
    if k <= 0 {
        seq![]
    } else {
        cascade_upto(ps, id, k - 1) + (if ps[k - 1].members.contains(id) {
            seq![
                FileActionView::WritePlaylist(
                    ps[k - 1].id,
                    playlist_text(
                        PlaylistView {
                            id: ps[k - 1].id,
                            title: ps[k - 1].title,
                            members: seq_without(ps[k - 1].members, id),
                        },
                    ),
                ),
            ]
        } else {
            seq![]
        })
    }
}

/// The file effects of a command: what the worker writes or removes so
/// that the directory matches the state after the command.
pub open spec fn sp_actions(v: RepoView, req: RequestView) -> Seq<FileActionView> {
    match req {
        RequestView::LyricPost(l) => seq![FileActionView::WriteLyric(l.id, lyric_text(l))],
        RequestView::LyricDelete(id) => seq![FileActionView::RemoveLyric(id)] + cascade_upto(
            v.playlists,
            id,
            v.playlists.len() as int,
        ),
        RequestView::PlaylistPost(p) => if sp_upsert_playlist_ok(v, p) {
            seq![FileActionView::WritePlaylist(p.id, playlist_text(p))]
        } else {
            seq![]
        },
        RequestView::PlaylistDelete(id) => seq![FileActionView::RemovePlaylist(id)],
        _ => seq![],
    }
}

/// What the log records of a command: the mutation it carries, nothing
/// for reads and for `Stop`.
pub open spec fn sp_transaction_of(req: RequestView) -> Option<TransactionView> {
    match req {
        RequestView::LyricPost(l) => Some(TransactionView::UpsertLyric(l)),
        RequestView::LyricDelete(id) => Some(TransactionView::DeleteLyric(id)),
        RequestView::PlaylistPost(p) => Some(TransactionView::UpsertPlaylist(p)),
        RequestView::PlaylistDelete(id) => Some(TransactionView::DeletePlaylist(id)),
        _ => None,
    }
}

/// The exact response a command earns against a given state.
pub open spec fn response_ok(v: RepoView, req: RequestView, resp: ResponseView) -> bool {
    match req {
        RequestView::LyricSummaries => resp == ResponseView::Summaries(
            Ok::<Seq<SummaryView>, FileRepoError>(
                v.lyrics.map_values(|l: LyricView| lyric_summary(l)),
            ),
        ),
        RequestView::LyricList => resp == ResponseView::Lyrics(
            Ok::<Seq<LyricView>, FileRepoError>(v.lyrics),
        ),
        RequestView::LyricItem(id) => match sp_get_lyric(v, id) {
            Some(l) => resp == ResponseView::Lyric(Ok::<LyricView, FileRepoError>(l)),
            None => resp matches ResponseView::Lyric(Err(e)) && (e matches
                FileRepoError::NotFound(s) && s@ == uuid_str(id)),
        },
        RequestView::LyricDelete(_) => resp == ResponseView::Unit(
            Ok::<(), FileRepoError>(()),
        ),
        RequestView::LyricPost(l) => resp == ResponseView::Lyric(
            Ok::<LyricView, FileRepoError>(canon_lyric(l)),
        ),
        RequestView::PlaylistSummaries => resp == ResponseView::Summaries(
            Ok::<Seq<SummaryView>, FileRepoError>(
                v.playlists.map_values(|p: PlaylistView| playlist_summary(p)),
            ),
        ),
        RequestView::PlaylistList => resp == ResponseView::Playlists(
            Ok::<Seq<PlaylistView>, FileRepoError>(v.playlists),
        ),
        RequestView::PlaylistItem(id) => match sp_get_playlist(v, id) {
            Some(p) => resp == ResponseView::Playlist(Ok::<PlaylistView, FileRepoError>(p)),
            None => resp matches ResponseView::Playlist(Err(e)) && (e matches
                FileRepoError::NotFound(s) && s@ == uuid_str(id)),
        },
        RequestView::PlaylistDelete(_) => resp == ResponseView::Unit(
            Ok::<(), FileRepoError>(()),
        ),
        RequestView::PlaylistPost(p) => if sp_upsert_playlist_ok(v, p) {
            resp == ResponseView::Playlist(
                Ok::<PlaylistView, FileRepoError>(canon_playlist(p)),
            )
        } else {
            resp matches ResponseView::Playlist(r) && invalid_member_err(r, p, lyric_ids(v))
        },
        RequestView::Stop => resp == ResponseView::Unit(Ok::<(), FileRepoError>(())),
    }
}

/// The log entry a command leaves, as the worker hands it to the log
/// writer: the mutation with its payload, nothing for reads or `Stop`.
pub fn transaction_of(req: &Request) -> (r: Option<Transaction>)
    ensures
        r.deep_view() == sp_transaction_of(req@),
{
    match req {
        Request::LyricPost(l) => Some(Transaction::UpsertLyric(l.clone())),
        Request::LyricDelete(id) => Some(Transaction::DeleteLyric(*id)),
        Request::PlaylistPost(p) => Some(Transaction::UpsertPlaylist(p.clone())),
        Request::PlaylistDelete(id) => Some(Transaction::DeletePlaylist(*id)),
        _ => None,
    }
}

/// Handles one command to completion: applies it to the state and returns
/// the one response owed to the caller, the file effects the worker must
/// perform, and whether the worker is to stop afterwards.
pub fn handle_request(db: &mut RepoDb, req: Request) -> (out: (Response, Vec<FileAction>, bool))
    requires
        repo_wf(old(db)@),
    ensures
        repo_wf(final(db)@),
        final(db)@ == sp_step(old(db)@, req@),
        response_ok(old(db)@, req@, out.0@),
        out.1.deep_view() == sp_actions(old(db)@, req@),
        out.2 == (req@ is Stop),
{
    match req {
        Request::LyricSummaries => {
            let r = Response::Summaries(Ok(db.get_lyric_summaries()));
            let actions: Vec<FileAction> = Vec::new();
            proof {
                assert(actions.deep_view() =~= sp_actions(db@, RequestView::LyricSummaries));
            }
            (r, actions, false)
        },
        Request::LyricList => {
            let r = Response::Lyrics(Ok(db.get_lyrics()));
            let actions: Vec<FileAction> = Vec::new();
            proof {
                assert(actions.deep_view() =~= sp_actions(db@, RequestView::LyricList));
            }
            (r, actions, false)
        },
        Request::LyricItem(id) => {
            let r = Response::Lyric(db.get_lyric(id));
            let actions: Vec<FileAction> = Vec::new();
            proof {
                assert(actions.deep_view() =~= sp_actions(db@, RequestView::LyricItem(id)));
            }
            (r, actions, false)
        },
        Request::LyricDelete(id) => {
            let mut actions: Vec<FileAction> = Vec::new();
            actions.push(FileAction::RemoveLyric(id));
            let ghost ps = db@.playlists;
            let ghost head = actions.deep_view();
            proof {
                assert(head =~= seq![FileActionView::RemoveLyric(id)]);
            }
            let mut k: usize = 0;
            while k < db.playlists.len()
                invariant
                    k <= db.playlists.len(),
                    ps == db@.playlists,
                    ps.len() == db.playlists.len(),
                    repo_wf(db@),
                    actions.deep_view() =~= head + cascade_upto(ps, id, k as int),
                decreases db.playlists.len() - k,
            {
                assert(db.playlists@[k as int]@ == ps[k as int]);
                if contains_id(&db.playlists[k].members, id) {
                    let np = Playlist {
                        id: db.playlists[k].id,
                        title: db.playlists[k].title.clone(),
                        members: without(&db.playlists[k].members, id),
                    };
                    let text = playlist_to_text(&np);
                    let ghost prev = actions.deep_view();
                    actions.push(FileAction::WritePlaylist(np.id, text));
                    proof {
                        assert(actions.deep_view() =~= prev.push(
                            FileActionView::WritePlaylist(
                                ps[k as int].id,
                                playlist_text(
                                    PlaylistView {
                                        id: ps[k as int].id,
                                        title: ps[k as int].title,
                                        members: seq_without(ps[k as int].members, id),
                                    },
                                ),
                            ),
                        ));
                    }
                }
                k += 1;
            }
            let r = Response::Unit(db.delete_lyric(id));
            (r, actions, false)
        },
        Request::LyricPost(l) => {
            let text = lyric_to_text(&l);
            let mut actions: Vec<FileAction> = Vec::new();
            actions.push(FileAction::WriteLyric(l.id, text));
            proof {
                assert(actions.deep_view() =~= seq![
                    FileActionView::WriteLyric(l@.id, lyric_text(l@)),
                ]);
            }
            let r = Response::Lyric(db.upsert_lyric(l));
            (r, actions, false)
        },
        Request::PlaylistSummaries => {
            let r = Response::Summaries(Ok(db.get_playlist_summaries()));
            let actions: Vec<FileAction> = Vec::new();
            proof {
                assert(actions.deep_view() =~= sp_actions(db@, RequestView::PlaylistSummaries));
            }
            (r, actions, false)
        },
        Request::PlaylistList => {
            let r = Response::Playlists(Ok(db.get_playlists()));
            let actions: Vec<FileAction> = Vec::new();
            proof {
                assert(actions.deep_view() =~= sp_actions(db@, RequestView::PlaylistList));
            }
            (r, actions, false)
        },
        Request::PlaylistItem(id) => {
            let r = Response::Playlist(db.get_playlist(id));
            let actions: Vec<FileAction> = Vec::new();
            proof {
                assert(actions.deep_view() =~= sp_actions(db@, RequestView::PlaylistItem(id)));
            }
            (r, actions, false)
        },
        Request::PlaylistDelete(id) => {
            let mut actions: Vec<FileAction> = Vec::new();
            actions.push(FileAction::RemovePlaylist(id));
            proof {
                assert(actions.deep_view() =~= seq![FileActionView::RemovePlaylist(id)]);
            }
            let r = Response::Unit(db.delete_playlist(id));
            (r, actions, false)
        },
        Request::PlaylistPost(p) => {
            let text = playlist_to_text(&p);
            let pid = p.id;
            let result = db.upsert_playlist(p);
            let mut actions: Vec<FileAction> = Vec::new();
            match &result {
                Ok(_) => {
                    actions.push(FileAction::WritePlaylist(pid, text));
                    proof {
                        assert(actions.deep_view() =~= seq![
                            FileActionView::WritePlaylist(pid, text@),
                        ]);
                    }
                },
                Err(_) => {
                    proof {
                        assert(actions.deep_view() =~= Seq::<FileActionView>::empty());
                    }
                },
            }
            (Response::Playlist(result), actions, false)
        },
        Request::Stop => {
            let r = Response::Unit(Ok(()));
            let actions: Vec<FileAction> = Vec::new();
            proof {
                assert(actions.deep_view() =~= sp_actions(db@, RequestView::Stop));
            }
            (r, actions, true)
        },
    }
}

} // verus!
