use vstd::prelude::*;
use vstd::string::*;
use crate::id::Uuid;
use crate::model::{Lyric, LyricView, clone_lines};
use crate::text::{spec_split_lines, spec_join_lines, split_lines, join_lines};

verus! {

// The lyric file format. A lyric file is plain text: the first non-blank
// line is the title, and the remaining lines fall into parts at blank-line
// boundaries, each part an ordered group of non-blank lines. Parsing is
// total: any text yields a lyric. Grouping into parts is specified as a
// left-to-right scan over the lines so that the executable loop matches it
// step by step.

/// State of the part-grouping scan: the parts already closed by a blank
/// line, and the lines of the part still open, if one is.
pub ghost struct BlockState {
    pub done: Seq<Seq<Seq<char>>>,
    pub cur: Option<Seq<Seq<char>>>,
}

pub open spec fn blocks_init() -> BlockState {
    BlockState { done: seq![], cur: None }
}

pub open spec fn blocks_step(st: BlockState, line: Seq<char>) -> BlockState {
    if line.len() == 0 {
        match st.cur {
            Some(b) => BlockState { done: st.done.push(b), cur: None },
            None => st,
        }
    } else {
        match st.cur {
            Some(b) => BlockState { done: st.done, cur: Some(b.push(line)) },
            None => BlockState { done: st.done, cur: Some(seq![line]) },
        }
    }
}

/// The scan state after consuming the first `i` lines.
pub open spec fn blocks_scan(init: BlockState, ls: Seq<Seq<char>>, i: int) -> BlockState
    decreases i,
{
    if i <= 0 {
        init
    } else {
        blocks_step(blocks_scan(init, ls, i - 1), ls[i - 1])
    }
}

pub open spec fn blocks_finish(st: BlockState) -> Seq<Seq<Seq<char>>> {
    match st.cur {
        Some(b) => st.done.push(b),
        None => st.done,
    }
}

/// The blank-line-separated groups of non-blank lines, in order.
pub open spec fn spec_blocks(ls: Seq<Seq<char>>) -> Seq<Seq<Seq<char>>> {
    blocks_finish(blocks_scan(blocks_init(), ls, ls.len() as int))
}

/// The first `i` parts laid out as lines, one blank line between
/// consecutive parts.
pub open spec fn parts_lines(parts: Seq<Seq<Seq<char>>>, i: int) -> Seq<Seq<char>>
    decreases i,
{
    if i <= 0 {
        seq![]
    } else if i == 1 {
        parts[0]
    } else {
        parts_lines(parts, i - 1) + seq![seq![]] + parts[i - 1]
    }
}

/// The lines of a lyric file: the title, then the parts, every boundary a
/// blank line.
pub open spec fn lyric_lines(l: LyricView) -> Seq<Seq<char>> {
    if l.parts.len() == 0 {
        seq![l.title]
    } else {
        seq![l.title, seq![]] + parts_lines(l.parts, l.parts.len() as int)
    }
}

/// The text of a lyric file.
pub open spec fn lyric_text(l: LyricView) -> Seq<char> {
    spec_join_lines(lyric_lines(l))
}

/// The title read from the grouped lines: the first line of the first
/// group, or empty where the text has no non-blank line.
pub open spec fn lyric_title_of(bs: Seq<Seq<Seq<char>>>) -> Seq<char> {
    if bs.len() == 0 {
        seq![]
    } else {
        bs[0][0]
    }
}

/// The parts read from the grouped lines: everything after the title line.
pub open spec fn lyric_parts_of(bs: Seq<Seq<Seq<char>>>) -> Seq<Seq<Seq<char>>> {
    if bs.len() == 0 {
        seq![]
    } else if bs[0].len() > 1 {
        seq![bs[0].drop_first()] + bs.drop_first()
    } else {
        bs.drop_first()
    }
}

/// The lyric a text parses to; parsing is total.
pub open spec fn parse_lyric_text(id: Uuid, s: Seq<char>) -> LyricView {
    let bs = spec_blocks(spec_split_lines(s));
    LyricView { id, title: lyric_title_of(bs), parts: lyric_parts_of(bs) }
}

/// What the storage engine holds after an upsert: the value produced by
/// writing the lyric's file and reading it back.
pub open spec fn canon_lyric(l: LyricView) -> LyricView {
    parse_lyric_text(l.id, lyric_text(l))
}

/// A line that survives the text format: non-empty and free of '\n'.
pub open spec fn wf_line(s: Seq<char>) -> bool {
    s.len() > 0 && !s.contains('\n')
}

pub open spec fn wf_parts(parts: Seq<Seq<Seq<char>>>) -> bool {
    forall|i: int|
        0 <= i < parts.len() ==> (#[trigger] parts[i]).len() > 0 && (forall|j: int|
            0 <= j < parts[i].len() ==> wf_line(#[trigger] parts[i][j]))
}

/// A lyric that the text format represents exactly.
pub open spec fn wf_lyric(l: LyricView) -> bool {
    wf_line(l.title) && wf_parts(l.parts)
}

proof fn lemma_bscan_decompose(init: BlockState, ls: Seq<Seq<char>>, m: int, i: int)
    requires
        0 <= m <= i <= ls.len(),
    ensures
        blocks_scan(init, ls, i) == blocks_scan(
            blocks_scan(init, ls, m),
            ls.subrange(m, ls.len() as int),
            i - m,
        ),
    decreases i - m,
{
    if i > m {
        lemma_bscan_decompose(init, ls, m, i - 1);
        assert(ls.subrange(m, ls.len() as int)[i - 1 - m] == ls[i - 1]);
    }
}

proof fn lemma_bscan_prefix(init: BlockState, ls: Seq<Seq<char>>, p: Seq<Seq<char>>, m: int)
    requires
        0 <= m <= ls.len(),
        m <= p.len(),
        forall|k: int| 0 <= k < m ==> ls[k] == p[k],
    ensures
        blocks_scan(init, ls, m) == blocks_scan(init, p, m),
    decreases m,
{
    if m > 0 {
        lemma_bscan_prefix(init, ls, p, m - 1);
    }
}

/// Over non-blank lines the scan only extends the open part.
proof fn lemma_bscan_nonblank(init: BlockState, ls: Seq<Seq<char>>, i: int)
    requires
        0 <= i <= ls.len(),
        forall|k: int| 0 <= k < i ==> (#[trigger] ls[k]).len() > 0,
    ensures
        blocks_scan(init, ls, i) == (BlockState {
            done: init.done,
            cur: match init.cur {
                Some(b) => Some(b + ls.take(i)),
                None => if i == 0 {
                    None
                } else {
                    Some(ls.take(i))
                },
            },
        }),
    decreases i,
{
    if i == 0 {
        match init.cur {
            Some(b) => {
                assert(b + ls.take(0) =~= b);
            },
            None => {},
        }
    } else {
        lemma_bscan_nonblank(init, ls, i - 1);
        match init.cur {
            Some(b) => {
                assert((b + ls.take(i - 1)).push(ls[i - 1]) =~= b + ls.take(i));
            },
            None => {
                if i == 1 {
                    assert(seq![ls[0]] =~= ls.take(1));
                } else {
                    assert(ls.take(i - 1).push(ls[i - 1]) =~= ls.take(i));
                }
            },
        }
    }
}

/// Scanning the laid-out parts from a state with no open part closes each
/// part at its separator and leaves the last one open.
proof fn lemma_bscan_parts(d: Seq<Seq<Seq<char>>>, parts: Seq<Seq<Seq<char>>>, n: int)
    requires
        1 <= n <= parts.len(),
        wf_parts(parts),
    ensures
        blocks_scan(
            BlockState { done: d, cur: None },
            parts_lines(parts, n),
            parts_lines(parts, n).len() as int,
        ) == (BlockState { done: d + parts.take(n - 1), cur: Some(parts[n - 1]) }),
    decreases n,
{
    let init = BlockState { done: d, cur: None };
    let ls = parts_lines(parts, n);
    if n == 1 {
        assert(forall|k: int| 0 <= k < ls.len() ==> (#[trigger] ls[k]).len() > 0);
        lemma_bscan_nonblank(init, ls, ls.len() as int);
        assert(ls.take(ls.len() as int) =~= parts[0]);
        assert(d + parts.take(0) =~= d);
    } else {
        let p = parts_lines(parts, n - 1);
        let m = p.len() as int;
        lemma_bscan_parts(d, parts, n - 1);
        assert(ls =~= p + seq![seq![]] + parts[n - 1]);
        lemma_bscan_prefix(init, ls, p, m);
        let st1 = blocks_scan(init, ls, m);
        assert(st1 == (BlockState { done: d + parts.take(n - 2), cur: Some(parts[n - 2]) }));
        lemma_bscan_decompose(init, ls, m, m + 1);
        assert(ls.subrange(m, ls.len() as int)[0] == Seq::<char>::empty());
        let st2 = blocks_scan(init, ls, m + 1);
        assert(st2 == (BlockState { done: (d + parts.take(n - 2)).push(parts[n - 2]), cur: None }));
        assert((d + parts.take(n - 2)).push(parts[n - 2]) =~= d + parts.take(n - 1));
        lemma_bscan_decompose(init, ls, m + 1, ls.len() as int);
        let rest = ls.subrange(m + 1, ls.len() as int);
        assert(rest =~= parts[n - 1]);
        assert(forall|k: int| 0 <= k < rest.len() ==> (#[trigger] rest[k]).len() > 0);
        lemma_bscan_nonblank(st2, rest, rest.len() as int);
        assert(rest.take(rest.len() as int) =~= parts[n - 1]);
    }
}

/// Grouping lines into parts undoes laying parts out as lines.
pub proof fn lemma_blocks_roundtrip(parts: Seq<Seq<Seq<char>>>)
    requires
        wf_parts(parts),
    ensures
        spec_blocks(parts_lines(parts, parts.len() as int)) == parts,
{
    let n = parts.len() as int;
    if n == 0 {
        assert(spec_blocks(parts_lines(parts, 0)) =~= parts);
    } else {
        lemma_bscan_parts(seq![], parts, n);
        assert(seq![] + parts.take(n - 1) =~= parts.take(n - 1));
        assert(parts.take(n - 1).push(parts[n - 1]) =~= parts);
    }
}

/// Re-reading the file written for a well-formed lyric yields the lyric
/// itself: the canonical form is the identity there.
pub proof fn lemma_lyric_roundtrip(l: LyricView)
    requires
        wf_lyric(l),
    ensures
        canon_lyric(l) == l,
{
    reveal_with_fuel(blocks_scan, 4);
    let ls = lyric_lines(l);
    assert(forall|k: int| 0 <= k < ls.len() ==> !(#[trigger] ls[k]).contains('\n')) by {
        assert(!l.title.contains('\n'));
        assert(!Seq::<char>::empty().contains('\n'));
        if l.parts.len() > 0 {
            lemma_parts_lines_wf(l.parts, l.parts.len() as int);
        }
    }
    crate::text::lemma_split_join(ls);
    let bs = spec_blocks(ls);
    let n = l.parts.len() as int;
    if n == 0 {
        assert(ls =~= seq![l.title]);
        assert(blocks_scan(blocks_init(), ls, 1) == blocks_step(blocks_init(), l.title));
        assert(bs =~= seq![seq![l.title]]);
        assert(lyric_parts_of(bs) =~= l.parts);
    } else {
        let body = parts_lines(l.parts, n);
        assert(ls =~= seq![l.title, seq![]] + body);
        let st1 = blocks_scan(blocks_init(), ls, 1);
        assert(st1 == (BlockState { done: seq![], cur: Some(seq![l.title]) }));
        let st2 = blocks_scan(blocks_init(), ls, 2);
        assert(st2 == (BlockState { done: seq![seq![l.title]], cur: None }));
        lemma_bscan_decompose(blocks_init(), ls, 2, ls.len() as int);
        let rest = ls.subrange(2, ls.len() as int);
        assert(rest =~= body);
        assert(blocks_scan(st2, body, body.len() as int) == (BlockState {
            done: seq![seq![l.title]] + l.parts.take(n - 1),
            cur: Some(l.parts[n - 1]),
        })) by {
            lemma_bscan_parts(seq![seq![l.title]], l.parts, n);
        }
        assert(bs =~= (seq![seq![l.title]] + l.parts.take(n - 1)).push(l.parts[n - 1]));
        assert(bs[0] =~= seq![l.title]);
        assert(lyric_parts_of(bs) =~= l.parts) by {
            assert(bs.drop_first() =~= l.parts.take(n - 1).push(l.parts[n - 1]));
            assert(l.parts.take(n - 1).push(l.parts[n - 1]) =~= l.parts);
        }
    }
    assert(lyric_title_of(bs) == l.title);
    assert(canon_lyric(l) == l);
}

/// Every line the parts lay out to is non-blank except the separators, and
/// none holds a '\n'.
proof fn lemma_parts_lines_wf(parts: Seq<Seq<Seq<char>>>, n: int)
    requires
        0 <= n <= parts.len(),
        wf_parts(parts),
    ensures
        forall|k: int|
            0 <= k < parts_lines(parts, n).len() ==> !(#[trigger] parts_lines(parts, n)[k])
                .contains('\n'),
    decreases n,
{
    if n == 1 {
        assert forall|k: int| 0 <= k < parts_lines(parts, n).len() implies !(#[trigger] parts_lines(
            parts,
            n,
        )[k]).contains('\n') by {
            assert(wf_line(parts[0][k]));
        }
    } else if n > 1 {
        lemma_parts_lines_wf(parts, n - 1);
        let p = parts_lines(parts, n - 1);
        assert forall|k: int| 0 <= k < parts_lines(parts, n).len() implies !(#[trigger] parts_lines(
            parts,
            n,
        )[k]).contains('\n') by {
            let ls = parts_lines(parts, n);
            if k < p.len() {
                assert(ls[k] == p[k]);
            } else if k == p.len() {
                assert(ls[k] =~= Seq::<char>::empty());
                assert(!Seq::<char>::empty().contains('\n'));
            } else {
                assert(ls[k] == parts[n - 1][k - p.len() - 1]);
                assert(wf_line(parts[n - 1][k - p.len() - 1]));
            }
        }
    }
}

/// Lines the scan files into parts keep being non-blank and newline-free,
/// as long as the input lines are newline-free.
proof fn lemma_bscan_lines_wf(init: BlockState, ls: Seq<Seq<char>>, i: int)
    requires
        0 <= i <= ls.len(),
        forall|k: int| 0 <= k < ls.len() ==> !(#[trigger] ls[k]).contains('\n'),
        wf_parts(init.done),
        init.cur matches Some(b) ==> b.len() > 0 && (forall|j: int|
            0 <= j < b.len() ==> wf_line(#[trigger] b[j])),
    ensures
        wf_parts(blocks_scan(init, ls, i).done),
        blocks_scan(init, ls, i).cur matches Some(b) ==> b.len() > 0 && (forall|j: int|
            0 <= j < b.len() ==> wf_line(#[trigger] b[j])),
    decreases i,
{
    if i > 0 {
        lemma_bscan_lines_wf(init, ls, i - 1);
        let st = blocks_scan(init, ls, i - 1);
        let line = ls[i - 1];
        if line.len() == 0 {
            match st.cur {
                Some(b) => {
                    assert forall|a: int|
                        0 <= a < st.done.push(b).len() implies (#[trigger] st.done.push(b)[a]).len()
                        > 0 && (forall|j: int|
                        0 <= j < st.done.push(b)[a].len() ==> wf_line(
                            #[trigger] st.done.push(b)[a][j],
                        )) by {
                        if a < st.done.len() {
                            assert(st.done.push(b)[a] == st.done[a]);
                        } else {
                            assert(st.done.push(b)[a] == b);
                        }
                    }
                },
                None => {},
            }
        } else {
            assert(wf_line(line));
            match st.cur {
                Some(b) => {
                    assert forall|j: int| 0 <= j < b.push(line).len() implies wf_line(
                        #[trigger] b.push(line)[j],
                    ) by {
                        if j < b.len() {
                            assert(wf_line(b[j]));
                        }
                    }
                },
                None => {
                    assert(seq![line][0] == line);
                },
            }
        }
    }
}

/// What a lyric parses to is either well-formed or the empty lyric: the
/// title non-blank and on one line, every part line likewise — or no
/// non-blank line at all, title empty and no parts.
pub proof fn lemma_parse_lyric_wf(id: Uuid, s: Seq<char>)
    ensures
        wf_lyric(parse_lyric_text(id, s)) || parse_lyric_text(id, s) == (LyricView {
            id,
            title: Seq::<char>::empty(),
            parts: Seq::<Seq<Seq<char>>>::empty(),
        }),
{
    let ls = spec_split_lines(s);
    crate::text::lemma_split_pieces_no_newline(s);
    lemma_bscan_nonempty(blocks_init(), ls, ls.len() as int);
    lemma_bscan_lines_wf(blocks_init(), ls, ls.len() as int);
    let st = blocks_scan(blocks_init(), ls, ls.len() as int);
    let bs = blocks_finish(st);
    assert(wf_parts(bs)) by {
        match st.cur {
            Some(b) => {
                assert forall|a: int| 0 <= a < bs.len() implies (#[trigger] bs[a]).len() > 0 && (
                forall|j: int| 0 <= j < bs[a].len() ==> wf_line(#[trigger] bs[a][j])) by {
                    if a < st.done.len() {
                        assert(bs[a] == st.done[a]);
                    } else {
                        assert(bs[a] == b);
                        assert(blocks_scan(blocks_init(), ls, ls.len() as int).cur == Some(b));
                    }
                }
            },
            None => {},
        }
    }
    let l = parse_lyric_text(id, s);
    if bs.len() == 0 {
        assert(l.title =~= Seq::<char>::empty());
        assert(l.parts =~= Seq::<Seq<Seq<char>>>::empty());
    } else {
        assert(bs[0].len() > 0);
        assert(wf_line(bs[0][0]));
        assert(wf_parts(l.parts)) by {
            let ps = lyric_parts_of(bs);
            assert forall|a: int| 0 <= a < ps.len() implies (#[trigger] ps[a]).len() > 0 && (
            forall|j: int| 0 <= j < ps[a].len() ==> wf_line(#[trigger] ps[a][j])) by {
                if bs[0].len() > 1 {
                    if a == 0 {
                        assert(ps[0] == bs[0].drop_first());
                        assert forall|j: int| 0 <= j < ps[0].len() implies wf_line(
                            #[trigger] ps[0][j],
                        ) by {
                            assert(ps[0][j] == bs[0][j + 1]);
                        }
                    } else {
                        assert(ps[a] == bs[a]);
                    }
                } else {
                    assert(ps[a] == bs[a + 1]);
                }
            }
        }
    }
}

/// Canonicalizing is idempotent: what a file read back parses to writes
/// back out to a file that reads the same.
pub proof fn lemma_canon_idempotent(l: LyricView)
    ensures
        canon_lyric(canon_lyric(l)) == canon_lyric(l),
{
    let c = canon_lyric(l);
    lemma_parse_lyric_wf(l.id, lyric_text(l));
    if wf_lyric(c) {
        lemma_lyric_roundtrip(c);
    } else {
        reveal_with_fuel(blocks_scan, 3);
        reveal_with_fuel(crate::text::split_scan, 3);
        reveal_with_fuel(crate::text::spec_join_upto, 3);
        assert(c.parts.len() == 0);
        assert(lyric_lines(c) =~= seq![Seq::<char>::empty()]);
        assert(lyric_text(c) =~= Seq::<char>::empty());
        let ls2 = spec_split_lines(lyric_text(c));
        assert(ls2 =~= seq![Seq::<char>::empty()]);
        let st2 = blocks_scan(blocks_init(), ls2, 1);
        assert(st2 == blocks_init());
        assert(spec_blocks(ls2) =~= Seq::<Seq<Seq<char>>>::empty());
        assert(canon_lyric(c).title =~= Seq::<char>::empty());
        assert(canon_lyric(c).parts =~= Seq::<Seq<Seq<char>>>::empty());
    }
}

/// Every part the scan produces holds at least one line.
proof fn lemma_bscan_nonempty(init: BlockState, ls: Seq<Seq<char>>, i: int)
    requires
        0 <= i <= ls.len(),
        forall|k: int| 0 <= k < init.done.len() ==> (#[trigger] init.done[k]).len() > 0,
        init.cur matches Some(b) ==> b.len() > 0,
    ensures
        forall|k: int|
            0 <= k < blocks_scan(init, ls, i).done.len() ==> (#[trigger] blocks_scan(
                init,
                ls,
                i,
            ).done[k]).len() > 0,
        blocks_scan(init, ls, i).cur matches Some(b) ==> b.len() > 0,
    decreases i,
{
    if i > 0 {
        lemma_bscan_nonempty(init, ls, i - 1);
    }
}

/// Every group of grouped lines is non-empty.
pub proof fn lemma_blocks_nonempty(ls: Seq<Seq<char>>)
    ensures
        forall|k: int|
            0 <= k < spec_blocks(ls).len() ==> (#[trigger] spec_blocks(ls)[k]).len() > 0,
{
    lemma_bscan_nonempty(blocks_init(), ls, ls.len() as int);
}

/// Groups the lines of a list into parts at blank-line boundaries.
fn blocks_of_lines(lines: &Vec<String>) -> (r: Vec<Vec<String>>)
    ensures
        r.deep_view() == spec_blocks(lines.deep_view()),
{
    let ghost lv = lines.deep_view();
    let mut done: Vec<Vec<String>> = Vec::new();
    let mut cur: Vec<String> = Vec::new();
    let mut in_block: bool = false;
    let mut i: usize = 0;
    while i < lines.len()
        invariant
            i <= lines.len(),
            lv == lines.deep_view(),
            lv.len() == lines.len(),
            done.deep_view() =~= blocks_scan(blocks_init(), lv, i as int).done,
            blocks_scan(blocks_init(), lv, i as int).cur == if in_block {
                Some(cur.deep_view())
            } else {
                None::<Seq<Seq<char>>>
            },
            !in_block ==> cur@.len() == 0,
        decreases lines.len() - i,
    {
        assert(lines@[i as int]@ == lv[i as int]);
        if lines[i].as_str().is_empty() {
            if in_block {
                let ghost prev = done.deep_view();
                let b = cur;
                cur = Vec::new();
                done.push(b);
                assert(done.deep_view() =~= prev.push(b.deep_view()));
                in_block = false;
            }
        } else {
            let ghost prevc = cur.deep_view();
            cur.push(lines[i].clone());
            assert(cur.deep_view() =~= prevc.push(lv[i as int]));
            proof {
                if !in_block {
                    assert(prevc.push(lv[i as int]) =~= seq![lv[i as int]]);
                }
            }
            in_block = true;
        }
        i += 1;
    }
    if in_block {
        let ghost prev = done.deep_view();
        let b = cur;
        done.push(b);
        assert(done.deep_view() =~= prev.push(b.deep_view()));
    }
    done
}

/// Splits a text into parts: groups of non-blank lines separated by blank
/// lines.
pub fn to_parts(text: &str) -> (r: Vec<Vec<String>>)
    ensures
        r.deep_view() == spec_blocks(spec_split_lines(text@)),
{
    let lines = split_lines(text);
    blocks_of_lines(&lines)
}

/// Lays parts out as text, one blank line between consecutive parts.
pub fn to_text(parts: &Vec<Vec<String>>) -> (r: String)
    ensures
        r@ == spec_join_lines(parts_lines(parts.deep_view(), parts.deep_view().len() as int)),
{
    let mut lines: Vec<String> = Vec::new();
    append_parts_lines(&mut lines, parts);
    proof {
        assert(lines.deep_view() =~= parts_lines(
            parts.deep_view(),
            parts.deep_view().len() as int,
        ));
    }
    join_lines(&lines)
}

/// Appends the laid-out lines of the parts to `lines`.
fn append_parts_lines(lines: &mut Vec<String>, parts: &Vec<Vec<String>>)
    ensures
        final(lines).deep_view() == old(lines).deep_view() + parts_lines(
            parts.deep_view(),
            parts.deep_view().len() as int,
        ),
{
    let ghost base = old(lines).deep_view();
    let ghost pv = parts.deep_view();
    let mut i: usize = 0;
    while i < parts.len()
        invariant
            i <= parts.len(),
            pv == parts.deep_view(),
            pv.len() == parts.len(),
            lines.deep_view() =~= base + parts_lines(pv, i as int),
        decreases parts.len() - i,
    {
        if i > 0 {
            let ghost prev = lines.deep_view();
            lines.push(String::new());
            assert(lines.deep_view() =~= prev.push(Seq::<char>::empty()));
        }
        let ghost mid = lines.deep_view();
        let part = &parts[i];
        let mut j: usize = 0;
        while j < part.len()
            invariant
                j <= part.len(),
                pv == parts.deep_view(),
                pv.len() == parts.len(),
                i < parts.len(),
                part@ == parts@[i as int]@,
                part@.len() == pv[i as int].len(),
                lines.deep_view() =~= mid + pv[i as int].take(j as int),
            decreases part.len() - j,
        {
            let ghost prev = lines.deep_view();
            lines.push(part[j].clone());
            assert(lines.deep_view() =~= prev.push(pv[i as int][j as int]));
            assert(prev.push(pv[i as int][j as int]) =~= mid + pv[i as int].take(j as int + 1));
            j += 1;
        }
        proof {
            assert(lines.deep_view() =~= mid + pv[i as int]);
            if i == 0 {
                assert(base + parts_lines(pv, 0) + pv[0] =~= base + parts_lines(pv, 1));
            } else {
                assert(base + parts_lines(pv, i as int) + seq![Seq::<char>::empty()] + pv[i as int]
                    =~= base + parts_lines(pv, i as int + 1));
            }
        }
        i += 1;
    }
}

/// The text of a lyric's file: title line first, then the parts.
pub fn lyric_to_text(lyric: &Lyric) -> (r: String)
    ensures
        r@ == lyric_text(lyric@),
{
    let mut lines: Vec<String> = Vec::new();
    lines.push(lyric.title.clone());
    if lyric.parts.len() > 0 {
        lines.push(String::new());
    }
    let ghost head = lines.deep_view();
    append_parts_lines(&mut lines, &lyric.parts);
    proof {
        if lyric@.parts.len() == 0 {
            assert(lines.deep_view() =~= lyric_lines(lyric@));
        } else {
            assert(head =~= seq![lyric@.title, Seq::<char>::empty()]);
            assert(lines.deep_view() =~= lyric_lines(lyric@));
        }
    }
    join_lines(&lines)
}

/// Parses a lyric file; parsing is total, so every text yields a lyric
/// under the given identifier.
pub fn text_to_lyric(id: Uuid, text: &str) -> (r: Lyric)
    ensures
        r@ == parse_lyric_text(id, text@),
{
    let blocks = blocks_of_lines(&split_lines(text));
    let ghost bs = spec_blocks(spec_split_lines(text@));
    proof {
        lemma_blocks_nonempty(spec_split_lines(text@));
    }
    if blocks.len() == 0 {
        let title = String::new();
        let parts: Vec<Vec<String>> = Vec::new();
        proof {
            assert(parts.deep_view() =~= lyric_parts_of(bs));
        }
        Lyric { id, title, parts }
    } else {
        assert(blocks@[0].deep_view() == bs[0]);
        assert(bs[0].len() > 0);
        let title = blocks[0][0].clone();
        let mut parts: Vec<Vec<String>> = Vec::new();
        if blocks[0].len() > 1 {
            let mut head: Vec<String> = Vec::new();
            let mut j: usize = 1;
            while j < blocks[0].len()
                invariant
                    1 <= j <= blocks@[0].len(),
                    blocks@[0].deep_view() == bs[0],
                    blocks@.len() == bs.len(),
                    bs.len() > 0,
                    head.deep_view() =~= bs[0].subrange(1, j as int),
                decreases blocks@[0].len() - j,
            {
                let ghost prev = head.deep_view();
                head.push(blocks[0][j].clone());
                assert(head.deep_view() =~= prev.push(bs[0][j as int]));
                assert(prev.push(bs[0][j as int]) =~= bs[0].subrange(1, j as int + 1));
                j += 1;
            }
            proof {
                assert(head.deep_view() =~= bs[0].drop_first());
            }
            parts.push(head);
        }
        let ghost lead = parts.deep_view();
        let mut k: usize = 1;
        while k < blocks.len()
            invariant
                1 <= k <= blocks@.len(),
                blocks@.len() == bs.len(),
                blocks.deep_view() == bs,
                parts.deep_view() =~= lead + bs.subrange(1, k as int),
            decreases blocks@.len() - k,
        {
            let ghost prev = parts.deep_view();
            parts.push(clone_lines(&blocks[k]));
            assert(parts.deep_view() =~= prev.push(bs[k as int]));
            assert(prev.push(bs[k as int]) =~= lead + bs.subrange(1, k as int + 1));
            k += 1;
        }
        proof {
            assert(bs.subrange(1, bs.len() as int) =~= bs.drop_first());
            if bs[0].len() > 1 {
                assert(parts.deep_view() =~= seq![bs[0].drop_first()] + bs.drop_first());
            } else {
                assert(lead =~= Seq::<Seq<Seq<char>>>::empty());
                assert(parts.deep_view() =~= bs.drop_first());
            }
            assert(parts.deep_view() =~= lyric_parts_of(bs));
        }
        Lyric { id, title, parts }
    }
}

/// The value the engine stores and returns for an upserted lyric: what
/// re-reading the lyric's file produces.
pub fn canonical_lyric(lyric: &Lyric) -> (r: Lyric)
    ensures
        r@ == canon_lyric(lyric@),
{
    let text = lyric_to_text(lyric);
    text_to_lyric(lyric.id, text.as_str())
}

} // verus!
