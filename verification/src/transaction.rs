use vstd::prelude::*;
use vstd::string::*;
use crate::error::FileRepoError;
use crate::id::{
    Uuid, uuid_str, spec_parse_uuid, parse_uuid_str, lemma_parse_uuid_roundtrip,
    lemma_hyphenated_no_newline,
};
use crate::model::{Lyric, LyricView, Playlist, PlaylistView};
use crate::parts::{lyric_text, parse_lyric_text, canon_lyric, lyric_to_text, text_to_lyric};
use crate::playlistfmt::{
    playlist_text, parse_playlist_text, canon_playlist, playlist_to_text, text_to_playlist,
    lemma_playlist_roundtrip,
};
use crate::text::{
    spec_split_lines, split_lines, split_init, split_scan, SplitState, chars_to_string,
    starts_with, parse_field, strip_prefix_line, lemma_no_newline_pointwise,
    lemma_concat_no_newline,
};
use crate::repo::{RepoDb, RepoView, sp_upsert_lyric, sp_delete_lyric, sp_upsert_playlist,
    sp_delete_playlist, repo_wf};

verus! {

// The transaction log: an append-only record of every accepted mutation,
// one entry per line, replayed at startup. An entry names the kind of
// mutation and carries the entity's file text on the same line, with '\n'
// and '\\' escaped; reads and the stop command are never logged.

/// An accepted mutation, as the log records it. The upsert payloads hold
/// the value the caller handed in; replaying funnels them back through the
/// repository's own operations, which canonicalize exactly as live
/// traffic does.
#[derive(Debug)]
pub enum Transaction {
    UpsertLyric(Lyric),
    DeleteLyric(Uuid),
    UpsertPlaylist(Playlist),
    DeletePlaylist(Uuid),
}

pub ghost enum TransactionView {
    UpsertLyric(LyricView),
    DeleteLyric(Uuid),
    UpsertPlaylist(PlaylistView),
    DeletePlaylist(Uuid),
}

impl View for Transaction {
    type V = TransactionView;

    open spec fn view(&self) -> TransactionView {
        match self {
            Transaction::UpsertLyric(l) => TransactionView::UpsertLyric(l@),
            Transaction::DeleteLyric(id) => TransactionView::DeleteLyric(*id),
            Transaction::UpsertPlaylist(p) => TransactionView::UpsertPlaylist(p@),
            Transaction::DeletePlaylist(id) => TransactionView::DeletePlaylist(*id),
        }
    }
}

impl DeepView for Transaction {
    type V = TransactionView;

    open spec fn deep_view(&self) -> TransactionView {
        self@
    }
}

/// A text with '\n' written as "\n" and '\\' written as "\\", so that it
/// fits on one log line.
pub open spec fn escape(s: Seq<char>) -> Seq<char>
    decreases s.len(),
{
    if s.len() == 0 {
        seq![]
    } else {
        let head: Seq<char> = if s[0] == '\n' {
            seq!['\\', 'n']
        } else if s[0] == '\\' {
            seq!['\\', '\\']
        } else {
            seq![s[0]]
        };
        head + escape(s.drop_first())
    }
}

/// The text an escaped line denotes, or nothing where an escape is broken.
pub open spec fn unescape(s: Seq<char>) -> Option<Seq<char>>
    decreases s.len(),
{
    if s.len() == 0 {
        Some(seq![])
    } else if s[0] == '\\' {
        if s.len() >= 2 && (s[1] == 'n' || s[1] == '\\') {
            match unescape(s.skip(2)) {
                Some(r) => Some(
                    seq![
                        if s[1] == 'n' {
                            '\n'
                        } else {
                            '\\'
                        },
                    ] + r,
                ),
                None => None,
            }
        } else {
            None
        }
    } else {
        match unescape(s.drop_first()) {
            Some(r) => Some(seq![s[0]] + r),
            None => None,
        }
    }
}

/// Escaping is compositional over concatenation.
proof fn lemma_escape_add(a: Seq<char>, b: Seq<char>)
    ensures
        escape(a + b) == escape(a) + escape(b),
    decreases a.len(),
{
    if a.len() == 0 {
        assert(a + b =~= b);
        assert(escape(a) + escape(b) =~= escape(b));
    } else {
        lemma_escape_add(a.drop_first(), b);
        assert((a + b).drop_first() =~= a.drop_first() + b);
        assert((a + b)[0] == a[0]);
        let head: Seq<char> = if a[0] == '\n' {
            seq!['\\', 'n']
        } else if a[0] == '\\' {
            seq!['\\', '\\']
        } else {
            seq![a[0]]
        };
        assert(escape(a + b) == head + (escape(a.drop_first()) + escape(b)));
        assert(head + (escape(a.drop_first()) + escape(b)) =~= (head + escape(a.drop_first()))
            + escape(b));
    }
}

/// An escaped text has no raw newline left.
proof fn lemma_escape_no_newline(s: Seq<char>)
    ensures
        !escape(s).contains('\n'),
    decreases s.len(),
{
    if s.len() == 0 {
        assert forall|i: int| 0 <= i < escape(s).len() implies escape(s)[i] != '\n' by {}
        lemma_no_newline_pointwise(escape(s));
    } else {
        lemma_escape_no_newline(s.drop_first());
        let head: Seq<char> = if s[0] == '\n' {
            seq!['\\', 'n']
        } else if s[0] == '\\' {
            seq!['\\', '\\']
        } else {
            seq![s[0]]
        };
        assert forall|i: int| 0 <= i < head.len() implies head[i] != '\n' by {}
        lemma_no_newline_pointwise(head);
        lemma_concat_no_newline(head, escape(s.drop_first()));
    }
}

/// Unescaping undoes escaping, for every text.
proof fn lemma_escape_roundtrip(s: Seq<char>)
    ensures
        unescape(escape(s)) == Some(s),
    decreases s.len(),
{
    if s.len() > 0 {
        lemma_escape_roundtrip(s.drop_first());
        let e = escape(s);
        let tail = escape(s.drop_first());
        if s[0] == '\n' {
            assert(e =~= seq!['\\', 'n'] + tail);
            assert(e.skip(2) =~= tail);
            assert(seq!['\n'] + s.drop_first() =~= s);
        } else if s[0] == '\\' {
            assert(e =~= seq!['\\', '\\'] + tail);
            assert(e.skip(2) =~= tail);
            assert(seq!['\\'] + s.drop_first() =~= s);
        } else {
            assert(e =~= seq![s[0]] + tail);
            assert(e[0] == s[0]);
            assert(e.drop_first() =~= tail);
            assert(seq![s[0]] + s.drop_first() =~= s);
        }
    } else {
        assert(unescape(escape(s)) == Some(Seq::<char>::empty()));
        assert(Seq::<char>::empty() =~= s);
    }
}

/// The canonical image of a transaction: each upsert payload replaced by
/// the value the engine stores for it. The engine logs stored values, and
/// decoding a logged entry yields exactly this image.
pub open spec fn canon_tx(t: TransactionView) -> TransactionView {
    match t {
        TransactionView::UpsertLyric(l) => TransactionView::UpsertLyric(canon_lyric(l)),
        TransactionView::DeleteLyric(id) => TransactionView::DeleteLyric(id),
        TransactionView::UpsertPlaylist(p) => TransactionView::UpsertPlaylist(canon_playlist(p)),
        TransactionView::DeletePlaylist(id) => TransactionView::DeletePlaylist(id),
    }
}

/// One log entry as one line: the kind, the identifier where the payload
/// does not carry it, and the entity's file text escaped onto the line.
pub open spec fn entry_line(t: TransactionView) -> Seq<char> {
    match t {
        TransactionView::UpsertLyric(l) => "upsert-lyric "@ + uuid_str(l.id) + seq![' ']
            + escape(lyric_text(l)),
        TransactionView::DeleteLyric(id) => "delete-lyric "@ + uuid_str(id),
        TransactionView::UpsertPlaylist(p) => "upsert-playlist "@ + escape(playlist_text(p)),
        TransactionView::DeletePlaylist(id) => "delete-playlist "@ + uuid_str(id),
    }
}

/// The transaction one log line records, or nothing for a broken line.
pub open spec fn parse_entry_line(s: Seq<char>) -> Option<TransactionView> {
    match parse_field(s, "upsert-lyric "@) {
        Some(rest) => if rest.len() >= 37 && rest[36] == ' ' {
            match spec_parse_uuid(rest.take(36)) {
                Some(u) => match unescape(rest.skip(37)) {
                    Some(t) => Some(TransactionView::UpsertLyric(parse_lyric_text(u, t))),
                    None => None,
                },
                None => None,
            }
        } else {
            None
        },
        None => match parse_field(s, "delete-lyric "@) {
            Some(rest) => match spec_parse_uuid(rest) {
                Some(u) => Some(TransactionView::DeleteLyric(u)),
                None => None,
            },
            None => match parse_field(s, "upsert-playlist "@) {
                Some(rest) => match unescape(rest) {
                    Some(t) => match parse_playlist_text(t) {
                        Some(p) => Some(TransactionView::UpsertPlaylist(p)),
                        None => None,
                    },
                    None => None,
                },
                None => match parse_field(s, "delete-playlist "@) {
                    Some(rest) => match spec_parse_uuid(rest) {
                        Some(u) => Some(TransactionView::DeletePlaylist(u)),
                        None => None,
                    },
                    None => None,
                },
            },
        },
    }
}

/// A line that differs from the prefix at one position does not carry it.
proof fn lemma_prefix_mismatch(line: Seq<char>, p: Seq<char>, k: int)
    requires
        0 <= k < p.len(),
        k < line.len(),
        line[k] != p[k],
    ensures
        parse_field(line, p) is None,
{
    if starts_with(line, p) {
        assert(line.take(p.len() as int)[k] == p[k]);
    }
}

/// No log entry spills onto a second line.
proof fn lemma_entry_no_newline(t: TransactionView)
    ensures
        !entry_line(t).contains('\n'),
{
    reveal_strlit("upsert-lyric ");
    reveal_strlit("delete-lyric ");
    reveal_strlit("upsert-playlist ");
    reveal_strlit("delete-playlist ");
    assert forall|i: int| 0 <= i < "upsert-lyric "@.len() implies "upsert-lyric "@[i] != '\n' by {}
    lemma_no_newline_pointwise("upsert-lyric "@);
    assert forall|i: int| 0 <= i < "delete-lyric "@.len() implies "delete-lyric "@[i] != '\n' by {}
    lemma_no_newline_pointwise("delete-lyric "@);
    assert forall|i: int|
        0 <= i < "upsert-playlist "@.len() implies "upsert-playlist "@[i] != '\n' by {}
    lemma_no_newline_pointwise("upsert-playlist "@);
    assert forall|i: int|
        0 <= i < "delete-playlist "@.len() implies "delete-playlist "@[i] != '\n' by {}
    lemma_no_newline_pointwise("delete-playlist "@);
    lemma_no_newline_pointwise(seq![' ']);
    match t {
        TransactionView::UpsertLyric(l) => {
            lemma_hyphenated_no_newline(l.id.bits);
            lemma_escape_no_newline(lyric_text(l));
            lemma_concat_no_newline("upsert-lyric "@, uuid_str(l.id));
            lemma_concat_no_newline("upsert-lyric "@ + uuid_str(l.id), seq![' ']);
            lemma_concat_no_newline(
                "upsert-lyric "@ + uuid_str(l.id) + seq![' '],
                escape(lyric_text(l)),
            );
        },
        TransactionView::DeleteLyric(id) => {
            lemma_hyphenated_no_newline(id.bits);
            lemma_concat_no_newline("delete-lyric "@, uuid_str(id));
        },
        TransactionView::UpsertPlaylist(p) => {
            lemma_escape_no_newline(playlist_text(p));
            lemma_concat_no_newline("upsert-playlist "@, escape(playlist_text(p)));
        },
        TransactionView::DeletePlaylist(id) => {
            lemma_hyphenated_no_newline(id.bits);
            lemma_concat_no_newline("delete-playlist "@, uuid_str(id));
        },
    }
}

/// Decoding a logged line yields the canonical image of the transaction.
pub proof fn lemma_entry_roundtrip(t: TransactionView)
    ensures
        parse_entry_line(entry_line(t)) == Some(canon_tx(t)),
{
    reveal_strlit("upsert-lyric ");
    reveal_strlit("delete-lyric ");
    reveal_strlit("upsert-playlist ");
    reveal_strlit("delete-playlist ");
    let s = entry_line(t);
    match t {
        TransactionView::UpsertLyric(l) => {
            let u = uuid_str(l.id);
            let e = escape(lyric_text(l));
            assert(s.take(13) =~= "upsert-lyric "@);
            let rest = s.skip(13);
            assert(rest =~= u + seq![' '] + e);
            assert(rest[36] == ' ');
            assert(rest.take(36) =~= u);
            assert(rest.skip(37) =~= e);
            lemma_parse_uuid_roundtrip(l.id);
            lemma_escape_roundtrip(lyric_text(l));
        },
        TransactionView::DeleteLyric(id) => {
            let u = uuid_str(id);
            assert(s[0] == 'd');
            lemma_prefix_mismatch(s, "upsert-lyric "@, 0);
            assert(s.take(13) =~= "delete-lyric "@);
            assert(s.skip(13) =~= u);
            lemma_parse_uuid_roundtrip(id);
        },
        TransactionView::UpsertPlaylist(p) => {
            let e = escape(playlist_text(p));
            assert(s[7] == 'p');
            lemma_prefix_mismatch(s, "upsert-lyric "@, 7);
            assert(s[0] == 'u');
            lemma_prefix_mismatch(s, "delete-lyric "@, 0);
            assert(s.take(16) =~= "upsert-playlist "@);
            assert(s.skip(16) =~= e);
            lemma_escape_roundtrip(playlist_text(p));
            lemma_playlist_roundtrip(p);
        },
        TransactionView::DeletePlaylist(id) => {
            let u = uuid_str(id);
            assert(s[0] == 'd');
            lemma_prefix_mismatch(s, "upsert-lyric "@, 0);
            assert(s[7] == 'p');
            lemma_prefix_mismatch(s, "delete-lyric "@, 7);
            assert(s[0] == 'd');
            lemma_prefix_mismatch(s, "upsert-playlist "@, 0);
            assert(s.take(16) =~= "delete-playlist "@);
            assert(s.skip(16) =~= u);
            lemma_parse_uuid_roundtrip(id);
        },
    }
}

/// The log file's text after the first `i` entries: each entry's line,
/// each line terminated by '\n', in commit order.
pub open spec fn log_text_upto(ts: Seq<TransactionView>, i: int) -> Seq<char>
    decreases i,
{
    if i <= 0 {
        seq![]
    } else {
        log_text_upto(ts, i - 1) + entry_line(ts[i - 1]) + seq!['\n']
    }
}

pub open spec fn log_text(ts: Seq<TransactionView>) -> Seq<char> {
    log_text_upto(ts, ts.len() as int)
}

/// The transactions the first `i` lines of a log record; blank lines are
/// passed over, and one broken line spoils the log.
pub open spec fn parse_log_upto(ls: Seq<Seq<char>>, i: int) -> Option<Seq<TransactionView>>
    decreases i,
{
    if i <= 0 {
        Some(seq![])
    } else {
        match parse_log_upto(ls, i - 1) {
            None => None,
            Some(acc) => if ls[i - 1].len() == 0 {
                Some(acc)
            } else {
                match parse_entry_line(ls[i - 1]) {
                    Some(t) => Some(acc.push(t)),
                    None => None,
                }
            },
        }
    }
}

pub open spec fn parse_log_text(s: Seq<char>) -> Option<Seq<TransactionView>> {
    parse_log_upto(spec_split_lines(s), spec_split_lines(s).len() as int)
}

/// The scan state at the end of a line-terminated log: every entry's line
/// closed, nothing open.
proof fn lemma_log_scan(ts: Seq<TransactionView>, n: int)
    requires
        0 <= n <= ts.len(),
    ensures
        split_scan(split_init(), log_text_upto(ts, n), log_text_upto(ts, n).len() as int)
            == (SplitState {
            done: ts.take(n).map_values(|t: TransactionView| entry_line(t)),
            cur: seq![],
        }),
    decreases n,
{
    let s = log_text_upto(ts, n);
    if n == 0 {
        assert(ts.take(0).map_values(|t: TransactionView| entry_line(t))
            =~= Seq::<Seq<char>>::empty());
    } else {
        let p = log_text_upto(ts, n - 1);
        let line = entry_line(ts[n - 1]);
        lemma_log_scan(ts, n - 1);
        let m = p.len() as int;
        assert(s =~= p + line + seq!['\n']);
        crate::text::lemma_scan_prefix(split_init(), s, p, m);
        crate::text::lemma_scan_decompose(split_init(), s, m, m + line.len() as int);
        let st1 = split_scan(split_init(), s, m);
        let mid = s.subrange(m, s.len() as int);
        assert(mid =~= line + seq!['\n']);
        let seg = s.subrange(m, s.len() as int).take(line.len() as int);
        lemma_entry_no_newline(ts[n - 1]);
        assert(forall|k: int|
            0 <= k < line.len() ==> s.subrange(m, s.len() as int)[k] == line[k]);
        crate::text::lemma_scan_no_newline(st1, mid, line.len() as int);
        assert(seq![] + mid.take(line.len() as int) =~= line);
        crate::text::lemma_scan_decompose(st1, mid, line.len() as int, mid.len() as int);
        let st2 = split_scan(st1, mid, line.len() as int);
        let tail = mid.subrange(line.len() as int, mid.len() as int);
        assert(tail =~= seq!['\n']);
        assert(split_scan(st2, tail, 1) == crate::text::split_step(st2, '\n'));
        assert(ts.take(n - 1).map_values(|t: TransactionView| entry_line(t)).push(line)
            =~= ts.take(n).map_values(|t: TransactionView| entry_line(t)));
    }
}

/// Decoding a written log yields the canonical images of its
/// transactions, in commit order, for every transaction list.
pub proof fn lemma_log_roundtrip(ts: Seq<TransactionView>)
    ensures
        parse_log_text(log_text(ts)) == Some(
            ts.map_values(|t: TransactionView| canon_tx(t)),
        ),
{
    let n = ts.len() as int;
    lemma_log_scan(ts, n);
    let lines = spec_split_lines(log_text(ts));
    let entry_lines = ts.map_values(|t: TransactionView| entry_line(t));
    assert(ts.take(n) =~= ts);
    assert(lines =~= entry_lines.push(seq![]));
    assert forall|i: int| 0 <= i <= entry_lines.len() implies parse_log_upto(lines, i) == Some(
        ts.take(i).map_values(|t: TransactionView| canon_tx(t)),
    ) by {
        lemma_log_parse_prefix(ts, lines, i);
    }
    assert(parse_log_upto(lines, lines.len() as int) == parse_log_upto(
        lines,
        entry_lines.len() as int,
    ));
    assert(ts.take(entry_lines.len() as int) =~= ts);
}

/// Parsing the first `i` entry lines of a written log recovers the first
/// `i` canonical transactions.
proof fn lemma_log_parse_prefix(ts: Seq<TransactionView>, lines: Seq<Seq<char>>, i: int)
    requires
        0 <= i <= ts.len(),
        lines.len() == ts.len() + 1,
        forall|k: int| 0 <= k < ts.len() ==> lines[k] == entry_line(#[trigger] ts[k]),
    ensures
        parse_log_upto(lines, i) == Some(ts.take(i).map_values(|t: TransactionView| canon_tx(t))),
    decreases i,
{
    if i == 0 {
        assert(ts.take(0).map_values(|t: TransactionView| canon_tx(t))
            =~= Seq::<TransactionView>::empty());
    } else {
        lemma_log_parse_prefix(ts, lines, i - 1);
        lemma_entry_roundtrip(ts[i - 1]);
        assert(lines[i - 1].len() > 0) by {
            reveal_strlit("upsert-lyric ");
            reveal_strlit("delete-lyric ");
            reveal_strlit("upsert-playlist ");
            reveal_strlit("delete-playlist ");
        }
        assert(ts.take(i - 1).map_values(|t: TransactionView| canon_tx(t)).push(
            canon_tx(ts[i - 1]),
        ) =~= ts.take(i).map_values(|t: TransactionView| canon_tx(t)));
    }
}

/// Puts a text on one line: '\n' becomes "\n" and '\\' becomes "\\".
pub fn escape_text(s: &String) -> (r: String)
    ensures
        r@ == escape(s@),
{
    let st = s.as_str();
    let n = st.unicode_len();
    let mut out: Vec<char> = Vec::new();
    let mut i: usize = 0;
    proof {
        assert(s@.take(0) =~= Seq::<char>::empty());
    }
    while i < n
        invariant
            i <= n,
            n == st@.len(),
            st@ == s@,
            out@ == escape(s@.take(i as int)),
        decreases n - i,
    {
        let c = st.get_char(i);
        let ghost t0 = s@.take(i as int);
        let ghost t1 = s@.take(i as int + 1);
        if c == '\n' {
            out.push('\\');
            out.push('n');
        } else if c == '\\' {
            out.push('\\');
            out.push('\\');
        } else {
            out.push(c);
        }
        proof {
            assert(t1 =~= t0 + seq![c]);
            lemma_escape_add(t0, seq![c]);
            assert(seq![c].drop_first() =~= Seq::<char>::empty());
            let head: Seq<char> = if c == '\n' {
                seq!['\\', 'n']
            } else if c == '\\' {
                seq!['\\', '\\']
            } else {
                seq![c]
            };
            assert(escape(seq![c]) == head + escape(Seq::<char>::empty()));
            assert(head + Seq::<char>::empty() =~= head);
            assert(out@ =~= escape(t0) + head);
        }
        i += 1;
    }
    proof {
        assert(s@.take(n as int) =~= s@);
    }
    chars_to_string(&out)
}

/// Reads an escaped line back into its text, or fails on a broken escape.
pub fn unescape_text(s: &str) -> (r: Option<String>)
    ensures
        match r {
            Some(t) => unescape(s@) == Some(t@),
            None => unescape(s@) is None,
        },
{
    let n = s.unicode_len();
    let mut out: Vec<char> = Vec::new();
    let mut i: usize = 0;
    proof {
        assert(s@.skip(0) =~= s@);
        match unescape(s@) {
            Some(r) => {
                assert(out@ + r =~= r);
            },
            None => {},
        }
    }
    while i < n
        invariant
            i <= n,
            n == s@.len(),
            unescape(s@) == (match unescape(s@.skip(i as int)) {
                Some(r) => Some(out@ + r),
                None => None::<Seq<char>>,
            }),
        decreases n - i,
    {
        let ghost rest = s@.skip(i as int);
        proof {
            assert(rest[0] == s@[i as int]);
        }
        let c = s.get_char(i);
        if c == '\\' {
            if i + 1 >= n {
                proof {
                    assert(rest.len() == 1);
                    assert(unescape(rest) is None);
                }
                return None;
            }
            let d = s.get_char(i + 1);
            proof {
                assert(rest.len() >= 2);
                assert(rest[1] == s@[i as int + 1]);
                assert(rest.skip(2) =~= s@.skip(i as int + 2));
            }
            if d == 'n' {
                out.push('\n');
            } else if d == '\\' {
                out.push('\\');
            } else {
                proof {
                    assert(unescape(rest) is None);
                }
                return None;
            }
            proof {
                let x: char = if d == 'n' {
                    '\n'
                } else {
                    '\\'
                };
                assert forall|r2: Seq<char>| true implies out@ + r2 =~= (out@.drop_last() + (
                seq![x] + r2)) by {
                    assert(out@.drop_last().push(x) =~= out@);
                }
                match unescape(s@.skip(i as int + 2)) {
                    Some(r2) => {
                        assert(unescape(rest) == Some(seq![x] + r2));
                        assert(out@ + r2 =~= out@.drop_last() + (seq![x] + r2));
                    },
                    None => {},
                }
            }
            i += 2;
        } else {
            out.push(c);
            proof {
                assert(rest.drop_first() =~= s@.skip(i as int + 1));
                match unescape(s@.skip(i as int + 1)) {
                    Some(r2) => {
                        assert(unescape(rest) == Some(seq![c] + r2));
                        assert(out@ + r2 =~= out@.drop_last() + (seq![c] + r2));
                        assert(out@.drop_last().push(c) =~= out@);
                    },
                    None => {},
                }
            }
            i += 1;
        }
    }
    proof {
        assert(s@.skip(n as int) =~= Seq::<char>::empty());
        assert(unescape(s@.skip(n as int)) == Some(Seq::<char>::empty()));
        assert(out@ + Seq::<char>::empty() =~= out@);
    }
    Some(chars_to_string(&out))
}

/// The log line recording one accepted mutation.
pub fn transaction_to_line(t: &Transaction) -> (r: String)
    ensures
        r@ == entry_line(t@),
{
    match t {
        Transaction::UpsertLyric(l) => {
            let mut out = String::from_str("upsert-lyric ");
            let h = l.id.hyphenated();
            out.append(h.as_str());
            out.append(" ");
            let e = escape_text(&lyric_to_text(l));
            out.append(e.as_str());
            proof {
                reveal_strlit(" ");
                assert(" "@ =~= seq![' ']);
            }
            out
        },
        Transaction::DeleteLyric(id) => {
            let mut out = String::from_str("delete-lyric ");
            let h = id.hyphenated();
            out.append(h.as_str());
            out
        },
        Transaction::UpsertPlaylist(p) => {
            let mut out = String::from_str("upsert-playlist ");
            let e = escape_text(&playlist_to_text(p));
            out.append(e.as_str());
            out
        },
        Transaction::DeletePlaylist(id) => {
            let mut out = String::from_str("delete-playlist ");
            let h = id.hyphenated();
            out.append(h.as_str());
            out
        },
    }
}

/// The transaction one log line records, if the line is whole.
fn line_to_transaction(line: &String) -> (r: Option<Transaction>)
    ensures
        match r {
            Some(t) => parse_entry_line(line@) == Some(t@),
            None => parse_entry_line(line@) is None,
        },
{
    if let Some(rest) = strip_prefix_line(line, "upsert-lyric ") {
        let rs = rest.as_str();
        let n = rs.unicode_len();
        if n < 37 {
            return None;
        }
        if rs.get_char(36) != ' ' {
            return None;
        }
        let idtxt = rs.substring_char(0, 36);
        let u = match parse_uuid_str(idtxt) {
            Some(u) => u,
            None => {
                return None;
            },
        };
        let payload = rs.substring_char(37, n);
        let text = match unescape_text(payload) {
            Some(t) => t,
            None => {
                return None;
            },
        };
        let l = text_to_lyric(u, text.as_str());
        Some(Transaction::UpsertLyric(l))
    } else if let Some(rest) = strip_prefix_line(line, "delete-lyric ") {
        match parse_uuid_str(rest.as_str()) {
            Some(u) => Some(Transaction::DeleteLyric(u)),
            None => None,
        }
    } else if let Some(rest) = strip_prefix_line(line, "upsert-playlist ") {
        let text = match unescape_text(rest.as_str()) {
            Some(t) => t,
            None => {
                return None;
            },
        };
        match text_to_playlist(text.as_str()) {
            Ok(p) => Some(Transaction::UpsertPlaylist(p)),
            Err(_) => None,
        }
    } else if let Some(rest) = strip_prefix_line(line, "delete-playlist ") {
        match parse_uuid_str(rest.as_str()) {
            Some(u) => Some(Transaction::DeletePlaylist(u)),
            None => None,
        }
    } else {
        None
    }
}

/// A broken line spoils every longer reading of the log.
proof fn lemma_parse_log_none(ls: Seq<Seq<char>>, i: int, j: int)
    requires
        0 <= i <= j,
        parse_log_upto(ls, i) is None,
    ensures
        parse_log_upto(ls, j) is None,
    decreases j - i,
{
    if j > i {
        lemma_parse_log_none(ls, i, j - 1);
    }
}

/// Reads a whole log file back into its transactions, in commit order;
/// one broken line makes the log malformed.
pub fn parse_log(text: &str) -> (r: Result<Vec<Transaction>, FileRepoError>)
    ensures
        match r {
            Ok(ts) => parse_log_text(text@) == Some(ts.deep_view()),
            Err(e) => parse_log_text(text@) is None && e matches FileRepoError::Parse(_),
        },
{
    let lines = split_lines(text);
    let ghost ls = spec_split_lines(text@);
    let mut ts: Vec<Transaction> = Vec::new();
    let mut k: usize = 0;
    proof {
        assert(ts.deep_view() =~= Seq::<TransactionView>::empty());
    }
    while k < lines.len()
        invariant
            k <= lines.len(),
            ls == lines.deep_view(),
            ls == spec_split_lines(text@),
            lines@.len() == ls.len(),
            parse_log_upto(ls, k as int) == Some(ts.deep_view()),
        decreases lines.len() - k,
    {
        assert(lines@[k as int]@ == ls[k as int]);
        if !lines[k].as_str().is_empty() {
            match line_to_transaction(&lines[k]) {
                Some(t) => {
                    let ghost prev = ts.deep_view();
                    ts.push(t);
                    proof {
                        assert(ts.deep_view() =~= prev.push(t@));
                    }
                },
                None => {
                    proof {
                        assert(parse_log_upto(ls, k as int + 1) is None);
                        lemma_parse_log_none(ls, k as int + 1, ls.len() as int);
                    }
                    return Err(
                        FileRepoError::Parse(String::from_str("broken transaction log line")),
                    );
                },
            }
        }
        k += 1;
    }
    Ok(ts)
}

/// The state one logged mutation moves the repository to: the same move
/// the live operation makes.
pub open spec fn sp_apply(v: RepoView, t: TransactionView) -> RepoView {
    match t {
        TransactionView::UpsertLyric(l) => sp_upsert_lyric(v, l),
        TransactionView::DeleteLyric(id) => sp_delete_lyric(v, id),
        TransactionView::UpsertPlaylist(p) => sp_upsert_playlist(v, p),
        TransactionView::DeletePlaylist(id) => sp_delete_playlist(v, id),
    }
}

/// The state after replaying the first `i` logged mutations, in order.
pub open spec fn sp_replay(v: RepoView, ts: Seq<TransactionView>, i: int) -> RepoView
    decreases i,
{
    if i <= 0 {
        v
    } else {
        sp_apply(sp_replay(v, ts, i - 1), ts[i - 1])
    }
}

impl RepoDb {
    /// Replays logged mutations through the repository's own operations,
    /// in file order; a rejected or failed entry is passed over, exactly
    /// as the live operation would have rejected it.
    pub fn replay(&mut self, ts: &Vec<Transaction>)
        requires
            repo_wf(old(self)@),
        ensures
            repo_wf(final(self)@),
            final(self)@ == sp_replay(old(self)@, ts.deep_view(), ts.deep_view().len() as int),
    {
        let mut k: usize = 0;
        while k < ts.len()
            invariant
                k <= ts.len(),
                ts.deep_view().len() == ts@.len(),
                repo_wf(self@),
                self@ == sp_replay(old(self)@, ts.deep_view(), k as int),
            decreases ts.len() - k,
        {
            assert(ts@[k as int]@ == ts.deep_view()[k as int]);
            match &ts[k] {
                Transaction::UpsertLyric(l) => {
                    crate::ignore(self.upsert_lyric(l.clone()));
                },
                Transaction::DeleteLyric(id) => {
                    crate::ignore(self.delete_lyric(*id));
                },
                Transaction::UpsertPlaylist(p) => {
                    crate::ignore(self.upsert_playlist(p.clone()));
                },
                Transaction::DeletePlaylist(id) => {
                    crate::ignore(self.delete_playlist(*id));
                },
            }
            k += 1;
        }
    }

    /// Rebuilds state from a transaction log file's text: parses it and
    /// replays every record through the repository's own operations. A
    /// malformed log is reported and leaves the state untouched.
    pub fn build_from_log(&mut self, text: &str) -> (r: Result<(), FileRepoError>)
        requires
            repo_wf(old(self)@),
        ensures
            repo_wf(final(self)@),
            match parse_log_text(text@) {
                Some(ts) => r is Ok && final(self)@ == sp_replay(
                    old(self)@,
                    ts,
                    ts.len() as int,
                ),
                None => r matches Err(e) && (e matches FileRepoError::Parse(_)) && final(self)@
                    == old(self)@,
            },
    {
        match parse_log(text) {
            Ok(ts) => {
                self.replay(&ts);
                Ok(())
            },
            Err(e) => Err(e),
        }
    }
}

} // verus!
