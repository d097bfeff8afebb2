use vstd::prelude::*;
use crate::error::FileRepoError;
use crate::id::{Uuid, uuid_str};

verus! {

// The entity model: lyrics, playlists that reference them by identifier,
// and the summary projection used for list views. Contracts speak about
// these values through the ghost views below, in which every text is a
// sequence of characters.

pub ghost struct LyricView {
    pub id: Uuid,
    pub title: Seq<char>,
    pub parts: Seq<Seq<Seq<char>>>,
}

pub ghost struct PlaylistView {
    pub id: Uuid,
    pub title: Seq<char>,
    pub members: Seq<Uuid>,
}

pub ghost struct SummaryView {
    pub id: Uuid,
    pub title: Seq<char>,
}

/// A song text: its identifier, a title, and the ordered parts, each part
/// an ordered sequence of lines.
#[derive(Debug)]
pub struct Lyric {
    pub id: Uuid,
    pub title: String,
    pub parts: Vec<Vec<String>>,
}

/// An ordered selection of lyrics, referenced by identifier.
#[derive(Debug)]
pub struct Playlist {
    pub id: Uuid,
    pub title: String,
    pub members: Vec<Uuid>,
}

/// The `{id, title}` projection of either entity, used for list views.
#[derive(Debug)]
pub struct Summary {
    pub id: Uuid,
    pub title: String,
}

impl View for Lyric {
    type V = LyricView;

    open spec fn view(&self) -> LyricView {
        LyricView { id: self.id, title: self.title@, parts: self.parts.deep_view() }
    }
}

impl DeepView for Lyric {
    type V = LyricView;

    open spec fn deep_view(&self) -> LyricView {
        self@
    }
}

impl View for Playlist {
    type V = PlaylistView;

    open spec fn view(&self) -> PlaylistView {
        PlaylistView { id: self.id, title: self.title@, members: self.members@ }
    }
}

impl DeepView for Playlist {
    type V = PlaylistView;

    open spec fn deep_view(&self) -> PlaylistView {
        self@
    }
}

impl View for Summary {
    type V = SummaryView;

    open spec fn view(&self) -> SummaryView {
        SummaryView { id: self.id, title: self.title@ }
    }
}

impl DeepView for Summary {
    type V = SummaryView;

    open spec fn deep_view(&self) -> SummaryView {
        self@
    }
}

/// Copies a list of lines.
pub fn clone_lines(lines: &Vec<String>) -> (r: Vec<String>)
    ensures
        r.deep_view() == lines.deep_view(),
{
    let mut r: Vec<String> = Vec::new();
    let mut i: usize = 0;
    while i < lines.len()
        invariant
            i <= lines.len(),
            r@.len() == i,
            forall|j: int| 0 <= j < i ==> r@[j]@ == lines@[j]@,
        decreases lines.len() - i,
    {
        r.push(lines[i].clone());
        i += 1;
    }
    proof {
        assert(r.deep_view() =~= lines.deep_view());
    }
    r
}

/// Copies the parts of a lyric.
pub fn clone_parts(parts: &Vec<Vec<String>>) -> (r: Vec<Vec<String>>)
    ensures
        r.deep_view() == parts.deep_view(),
{
    let mut r: Vec<Vec<String>> = Vec::new();
    let mut i: usize = 0;
    while i < parts.len()
        invariant
            i <= parts.len(),
            r@.len() == i,
            forall|j: int| 0 <= j < i ==> r@[j].deep_view() == parts@[j].deep_view(),
        decreases parts.len() - i,
    {
        r.push(clone_lines(&parts[i]));
        i += 1;
    }
    proof {
        assert(r.deep_view() =~= parts.deep_view());
    }
    r
}

/// Copies a member list.
pub fn clone_members(members: &Vec<Uuid>) -> (r: Vec<Uuid>)
    ensures
        r@ == members@,
{
    let mut r: Vec<Uuid> = Vec::new();
    let mut i: usize = 0;
    while i < members.len()
        invariant
            i <= members.len(),
            r@ =~= members@.take(i as int),
        decreases members.len() - i,
    {
        r.push(members[i]);
        i += 1;
    }
    proof {
        assert(r@ =~= members@);
    }
    r
}

impl Clone for Lyric {
    fn clone(&self) -> (r: Self)
        ensures
            r@ == self@,
    {
        Lyric { id: self.id, title: self.title.clone(), parts: clone_parts(&self.parts) }
    }
}

impl Clone for Playlist {
    fn clone(&self) -> (r: Self)
        ensures
            r@ == self@,
    {
        Playlist { id: self.id, title: self.title.clone(), members: clone_members(&self.members) }
    }
}

impl Clone for Summary {
    fn clone(&self) -> (r: Self)
        ensures
            r@ == self@,
    {
        Summary { id: self.id, title: self.title.clone() }
    }
}

pub open spec fn lyric_summary(l: LyricView) -> SummaryView {
    SummaryView { id: l.id, title: l.title }
}

pub open spec fn playlist_summary(p: PlaylistView) -> SummaryView {
    SummaryView { id: p.id, title: p.title }
}

impl Lyric {
    /// The `{id, title}` projection of this lyric.
    pub fn summary(&self) -> (r: Summary)
        ensures
            r@ == lyric_summary(self@),
    {
        Summary { id: self.id, title: self.title.clone() }
    }
}

impl Playlist {
    /// The `{id, title}` projection of this playlist.
    pub fn summary(&self) -> (r: Summary)
        ensures
            r@ == playlist_summary(self@),
    {
        Summary { id: self.id, title: self.title.clone() }
    }
}

/// The summaries of a list of lyrics, in order.
pub fn summaries_of_lyrics(lyrics: &Vec<Lyric>) -> (r: Vec<Summary>)
    ensures
        r.deep_view() == lyrics.deep_view().map_values(|l: LyricView| lyric_summary(l)),
{
    let mut r: Vec<Summary> = Vec::new();
    let mut i: usize = 0;
    while i < lyrics.len()
        invariant
            i <= lyrics.len(),
            r@.len() == i,
            forall|j: int| 0 <= j < i ==> r@[j]@ == lyric_summary(lyrics@[j]@),
        decreases lyrics.len() - i,
    {
        r.push(lyrics[i].summary());
        i += 1;
    }
    proof {
        assert(r.deep_view() =~= lyrics.deep_view().map_values(|l: LyricView| lyric_summary(l)));
    }
    r
}

/// The summaries of a list of playlists, in order.
pub fn summaries_of_playlists(playlists: &Vec<Playlist>) -> (r: Vec<Summary>)
    ensures
        r.deep_view() == playlists.deep_view().map_values(|p: PlaylistView| playlist_summary(p)),
{
    let mut r: Vec<Summary> = Vec::new();
    let mut i: usize = 0;
    while i < playlists.len()
        invariant
            i <= playlists.len(),
            r@.len() == i,
            forall|j: int| 0 <= j < i ==> r@[j]@ == playlist_summary(playlists@[j]@),
        decreases playlists.len() - i,
    {
        r.push(playlists[i].summary());
        i += 1;
    }
    proof {
        assert(r.deep_view() =~= playlists.deep_view().map_values(
            |p: PlaylistView| playlist_summary(p),
        ));
    }
    r
}

/// The identifiers of a list of summaries, in order.
pub fn ids(summaries: &Vec<Summary>) -> (r: Vec<Uuid>)
    ensures
        r@ == summaries.deep_view().map_values(|s: SummaryView| s.id),
{
    let mut r: Vec<Uuid> = Vec::new();
    let mut i: usize = 0;
    while i < summaries.len()
        invariant
            i <= summaries.len(),
            r@.len() == i,
            forall|j: int| 0 <= j < i ==> r@[j] == summaries@[j].id,
        decreases summaries.len() - i,
    {
        r.push(summaries[i].id);
        i += 1;
    }
    proof {
        assert(r@ =~= summaries.deep_view().map_values(|s: SummaryView| s.id));
    }
    r
}

/// Whether an identifier occurs in a list.
pub fn contains_id(v: &Vec<Uuid>, x: Uuid) -> (r: bool)
    ensures
        r == v@.contains(x),
{
    let mut i: usize = 0;
    while i < v.len()
        invariant
            i <= v.len(),
            forall|j: int| 0 <= j < i ==> v@[j] != x,
        decreases v.len() - i,
    {
        if v[i].bits == x.bits {
            return true;
        }
        i += 1;
    }
    false
}

/// A member list with every occurrence of one identifier removed; the
/// order of the others is kept.
pub open spec fn seq_without(s: Seq<Uuid>, x: Uuid) -> Seq<Uuid> {
    s.filter(|m: Uuid| m != x)
}

/// One step of the removal: a pushed identifier stays iff it differs.
pub proof fn lemma_seq_without_push(s: Seq<Uuid>, x: Uuid, e: Uuid)
    ensures
        seq_without(s.push(e), x) == if e != x {
            seq_without(s, x).push(e)
        } else {
            seq_without(s, x)
        },
{
    reveal(Seq::filter);
    assert(s.push(e).drop_last() =~= s);
    assert(s.push(e).last() == e);
}

/// What removal gives: exactly the other identifiers, in order, and all of
/// them.
pub proof fn lemma_seq_without_props(s: Seq<Uuid>, x: Uuid)
    ensures
        seq_without(s, x).len() <= s.len(),
        forall|j: int|
            0 <= j < seq_without(s, x).len() ==> (#[trigger] seq_without(s, x)[j]) != x
                && s.contains(seq_without(s, x)[j]),
        forall|y: Uuid| y != x && s.contains(y) ==> seq_without(s, x).contains(y),
    decreases s.len(),
{
    reveal(Seq::filter);
    if s.len() > 0 {
        let t = s.drop_last();
        lemma_seq_without_props(t, x);
        let f = seq_without(s, x);
        let fd = seq_without(t, x);
        assert(f == if s.last() != x {
            fd.push(s.last())
        } else {
            fd
        });
        assert forall|j: int| 0 <= j < f.len() implies (#[trigger] f[j]) != x && s.contains(
            f[j],
        ) by {
            if s.last() != x && j == f.len() - 1 {
                assert(f[j] == s[s.len() - 1]);
            } else {
                assert(f[j] == fd[j]);
                assert(t.contains(fd[j]));
                let w = choose|w: int| 0 <= w < t.len() && t[w] == fd[j];
                assert(s[w] == fd[j]);
            }
        }
        assert forall|y: Uuid| y != x && s.contains(y) implies seq_without(s, x).contains(y) by {
            let w = choose|w: int| 0 <= w < s.len() && s[w] == y;
            if w == s.len() - 1 {
                assert(f[f.len() - 1] == y);
            } else {
                assert(t[w] == y);
                assert(t.contains(y));
                assert(fd.contains(y));
                let u = choose|u: int| 0 <= u < fd.len() && fd[u] == y;
                assert(f[u] == y);
            }
        }
    }
}

/// Removing an identifier that no longer occurs changes nothing.
pub proof fn lemma_seq_without_absent(s: Seq<Uuid>, x: Uuid)
    requires
        forall|j: int| 0 <= j < s.len() ==> (#[trigger] s[j]) != x,
    ensures
        seq_without(s, x) == s,
    decreases s.len(),
{
    reveal(Seq::filter);
    if s.len() > 0 {
        let t = s.drop_last();
        lemma_seq_without_absent(t, x);
        assert(s.last() != x);
        assert(seq_without(t, x).push(s.last()) =~= s);
    } else {
        assert(seq_without(s, x) =~= s);
    }
}

/// Removing twice is the same as removing once.
pub proof fn lemma_seq_without_idempotent(s: Seq<Uuid>, x: Uuid)
    ensures
        seq_without(seq_without(s, x), x) == seq_without(s, x),
{
    lemma_seq_without_props(s, x);
    lemma_seq_without_absent(seq_without(s, x), x);
}

/// The member list with every occurrence of one identifier removed.
pub fn without(v: &Vec<Uuid>, x: Uuid) -> (r: Vec<Uuid>)
    ensures
        r@ == seq_without(v@, x),
{
    let mut r: Vec<Uuid> = Vec::new();
    let mut i: usize = 0;
    proof {
        reveal(Seq::filter);
        assert(v@.take(0) =~= Seq::<Uuid>::empty());
        assert(seq_without(v@.take(0), x) =~= Seq::<Uuid>::empty());
    }
    while i < v.len()
        invariant
            i <= v.len(),
            r@ == seq_without(v@.take(i as int), x),
        decreases v.len() - i,
    {
        let ghost t0 = v@.take(i as int);
        let ghost t1 = v@.take(i as int + 1);
        if v[i].bits != x.bits {
            r.push(v[i]);
        }
        proof {
            assert(t1 =~= t0.push(v@[i as int]));
            lemma_seq_without_push(t0, x, v@[i as int]);
        }
        i += 1;
    }
    proof {
        assert(v@.take(v@.len() as int) =~= v@);
    }
    r
}

/// Every member of the playlist names one of the given lyric identifiers.
pub open spec fn members_ok(members: Seq<Uuid>, lyric_ids: Seq<Uuid>) -> bool {
    forall|j: int| 0 <= j < members.len() ==> lyric_ids.contains(#[trigger] members[j])
}

/// Position `j` holds the first member of the playlist that names no
/// stored lyric, and `e` is the error reporting it: the playlist id and
/// that member id, both in text form.
pub open spec fn first_bad_member_at(
    p: PlaylistView,
    lyric_ids: Seq<Uuid>,
    j: int,
    e: FileRepoError,
) -> bool {
    &&& 0 <= j < p.members.len()
    &&& !lyric_ids.contains(p.members[j])
    &&& forall|j2: int| 0 <= j2 < j ==> lyric_ids.contains(#[trigger] p.members[j2])
    &&& e matches FileRepoError::PlaylistInvalidMember(pid, mid) && pid@ == uuid_str(p.id) && mid@
        == uuid_str(p.members[j])
}

/// The error returned for a playlist whose member list names a missing
/// lyric: it carries the playlist id and the first offending member id.
pub open spec fn invalid_member_err<T>(
    r: Result<T, FileRepoError>,
    p: PlaylistView,
    lyric_ids: Seq<Uuid>,
) -> bool {
    r matches Err(e) && exists|j: int| #[trigger] first_bad_member_at(p, lyric_ids, j, e)
}

/// Checks the membership invariant: accepts the playlist exactly when every
/// member id is among the given lyric ids, and otherwise reports the first
/// offending member.
pub fn check_members(playlist: &Playlist, lyric_ids: &Vec<Uuid>) -> (r: Result<(), FileRepoError>)
    ensures
        members_ok(playlist@.members, lyric_ids@) ==> r == Ok::<(), FileRepoError>(()),
        !members_ok(playlist@.members, lyric_ids@) ==> invalid_member_err(
            r,
            playlist@,
            lyric_ids@,
        ),
{
    let mut i: usize = 0;
    while i < playlist.members.len()
        invariant
            i <= playlist.members.len(),
            forall|j: int| 0 <= j < i ==> lyric_ids@.contains(#[trigger] playlist@.members[j]),
        decreases playlist.members.len() - i,
    {
        let m = playlist.members[i];
        if !contains_id(lyric_ids, m) {
            let e = FileRepoError::PlaylistInvalidMember(playlist.id.hyphenated(), m.hyphenated());
            proof {
                assert(first_bad_member_at(playlist@, lyric_ids@, i as int, e));
            }
            return Err(e);
        }
        i += 1;
    }
    Ok(())
}

} // verus!
