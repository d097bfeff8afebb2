use vstd::prelude::*;
use vstd::string::*;

verus! {

// The on-disk formats are plain text. Every format in this crate is stated
// over lines: a text is the lines joined with '\n', and parsing starts by
// splitting on '\n'. Splitting is specified as a left-to-right scan so that
// the executable loop matches it step by step.

/// State of the line-splitting scan: the lines already closed by a '\n',
/// and the characters of the line still open.
pub ghost struct SplitState {
    pub done: Seq<Seq<char>>,
    pub cur: Seq<char>,
}

pub open spec fn split_init() -> SplitState {
    SplitState { done: seq![], cur: seq![] }
}

pub open spec fn split_step(st: SplitState, c: char) -> SplitState {
    if c == '\n' {
        SplitState { done: st.done.push(st.cur), cur: seq![] }
    } else {
        SplitState { done: st.done, cur: st.cur.push(c) }
    }
}

/// The scan state after consuming the first `i` characters of `s`.
pub open spec fn split_scan(init: SplitState, s: Seq<char>, i: int) -> SplitState
    decreases i,
{
    if i <= 0 {
        init
    } else {
        split_step(split_scan(init, s, i - 1), s[i - 1])
    }
}

/// The lines of a text: the pieces between '\n' separators. A text with no
/// '\n' is one line; every '\n' closes a line, so "a\n" is ["a", ""].
pub open spec fn spec_split_lines(s: Seq<char>) -> Seq<Seq<char>> {
    let st = split_scan(split_init(), s, s.len() as int);
    st.done.push(st.cur)
}

/// The first `i` lines joined with '\n' between consecutive lines.
pub open spec fn spec_join_upto(ls: Seq<Seq<char>>, i: int) -> Seq<char>
    decreases i,
{
    if i <= 0 {
        seq![]
    } else if i == 1 {
        ls[0]
    } else {
        spec_join_upto(ls, i - 1).push('\n') + ls[i - 1]
    }
}

pub open spec fn spec_join_lines(ls: Seq<Seq<char>>) -> Seq<char> {
    spec_join_upto(ls, ls.len() as int)
}

/// Scanning a longer prefix factors through the state reached at any split
/// point `m`: the remainder is scanned from that state.
pub proof fn lemma_scan_decompose(init: SplitState, s: Seq<char>, m: int, i: int)
    requires
        0 <= m <= i <= s.len(),
    ensures
        split_scan(init, s, i) == split_scan(
            split_scan(init, s, m),
            s.subrange(m, s.len() as int),
            i - m,
        ),
    decreases i - m,
{
    if i > m {
        lemma_scan_decompose(init, s, m, i - 1);
        assert(s.subrange(m, s.len() as int)[i - 1 - m] == s[i - 1]);
    }
}

/// Over newline-free text the scan only extends the open line.
pub proof fn lemma_scan_no_newline(init: SplitState, s: Seq<char>, i: int)
    requires
        0 <= i <= s.len(),
        forall|k: int| 0 <= k < i ==> s[k] != '\n',
    ensures
        split_scan(init, s, i) == (SplitState { done: init.done, cur: init.cur + s.take(i) }),
    decreases i,
{
    if i == 0 {
        assert(init.cur + s.take(0) =~= init.cur);
    } else {
        lemma_scan_no_newline(init, s, i - 1);
        assert(init.cur + s.take(i) =~= (init.cur + s.take(i - 1)).push(s[i - 1]));
    }
}

/// The scan state at the end of the joined text: all lines but the last are
/// closed, the last is still open.
proof fn lemma_scan_join(ls: Seq<Seq<char>>, n: int)
    requires
        1 <= n <= ls.len(),
        forall|k: int| 0 <= k < n ==> !(#[trigger] ls[k]).contains('\n'),
    ensures
        split_scan(split_init(), spec_join_upto(ls, n), spec_join_upto(ls, n).len() as int)
            == (SplitState { done: ls.take(n - 1), cur: ls[n - 1] }),
    decreases n,
{
    let s = spec_join_upto(ls, n);
    if n == 1 {
        assert(forall|k: int| 0 <= k < s.len() ==> s[k] != '\n') by {
            assert(!ls[0].contains('\n'));
        }
        lemma_scan_no_newline(split_init(), s, s.len() as int);
        assert(seq![] + s.take(s.len() as int) =~= ls[0]);
        assert(ls.take(0) =~= Seq::<Seq<char>>::empty());
    } else {
        let p = spec_join_upto(ls, n - 1);
        lemma_scan_join(ls, n - 1);
        let m = p.len() as int;
        assert(s =~= p + seq!['\n'] + ls[n - 1]);
        assert(s.take(m) =~= p);
        // the scan over s agrees with the scan over p on the first m steps
        assert(split_scan(split_init(), s, m) == split_scan(split_init(), p, m)) by {
            lemma_scan_prefix(split_init(), s, p, m);
        }
        lemma_scan_decompose(split_init(), s, m, m + 1);
        let st1 = split_scan(split_init(), s, m + 1);
        assert(s.subrange(m, s.len() as int)[0] == '\n');
        assert(st1 == (SplitState { done: ls.take(n - 1), cur: seq![] })) by {
            assert(ls.take(n - 2).push(ls[n - 2]) =~= ls.take(n - 1));
        }
        lemma_scan_decompose(split_init(), s, m + 1, s.len() as int);
        let rest = s.subrange(m + 1, s.len() as int);
        assert(rest =~= ls[n - 1]);
        assert(forall|k: int| 0 <= k < rest.len() ==> rest[k] != '\n') by {
            assert(!ls[n - 1].contains('\n'));
        }
        lemma_scan_no_newline(st1, rest, rest.len() as int);
        assert(seq![] + rest.take(rest.len() as int) =~= ls[n - 1]);
    }
}

proof fn lemma_split_scan_pieces(init: SplitState, s: Seq<char>, i: int)
    requires
        0 <= i <= s.len(),
        forall|k: int| 0 <= k < init.done.len() ==> !(#[trigger] init.done[k]).contains('\n'),
        !init.cur.contains('\n'),
    ensures
        forall|k: int|
            0 <= k < split_scan(init, s, i).done.len() ==> !(#[trigger] split_scan(
                init,
                s,
                i,
            ).done[k]).contains('\n'),
        !split_scan(init, s, i).cur.contains('\n'),
    decreases i,
{
    if i > 0 {
        lemma_split_scan_pieces(init, s, i - 1);
        let st = split_scan(init, s, i - 1);
        let c = s[i - 1];
        if c == '\n' {
            assert forall|k: int| 0 <= k < Seq::<char>::empty().len() implies Seq::<
                char,
            >::empty()[k] != '\n' by {}
            lemma_no_newline_pointwise(Seq::<char>::empty());
        } else {
            assert forall|k: int| 0 <= k < st.cur.push(c).len() implies st.cur.push(c)[k]
                != '\n' by {
                if k < st.cur.len() {
                    if st.cur[k] == '\n' {
                        assert(st.cur.contains('\n'));
                    }
                }
            }
            lemma_no_newline_pointwise(st.cur.push(c));
        }
    }
}

/// No piece of a split text holds a newline: the separator never survives.
pub proof fn lemma_split_pieces_no_newline(s: Seq<char>)
    ensures
        forall|k: int|
            0 <= k < spec_split_lines(s).len() ==> !(#[trigger] spec_split_lines(s)[k]).contains(
                '\n',
            ),
{
    lemma_split_scan_pieces(split_init(), s, s.len() as int);
}

/// Two texts that agree on a prefix are scanned to the same state there.
pub proof fn lemma_scan_prefix(init: SplitState, s: Seq<char>, p: Seq<char>, m: int)
    requires
        0 <= m <= s.len(),
        m <= p.len(),
        forall|k: int| 0 <= k < m ==> s[k] == p[k],
    ensures
        split_scan(init, s, m) == split_scan(init, p, m),
    decreases m,
{
    if m > 0 {
        lemma_scan_prefix(init, s, p, m - 1);
    }
}

/// Relies on `String`'s `FromIterator` over `char`: collecting yields the
/// string of exactly the iterated characters, in order.
#[verifier::external_body]
pub fn chars_to_string(cs: &Vec<char>) -> (r: String)
    ensures
        r@ == cs@,
{
    cs.iter().collect()
}

/// Appends the characters of `line` to `out`.
fn push_chars(out: &mut Vec<char>, line: &String)
    ensures
        final(out)@ == old(out)@ + line@,
{
    let s = line.as_str();
    let m = s.unicode_len();
    let mut j: usize = 0;
    while j < m
        invariant
            j <= m,
            m == s@.len(),
            s@ == line@,
            out@ == old(out)@ + line@.take(j as int),
        decreases m - j,
    {
        let c = s.get_char(j);
        out.push(c);
        assert(old(out)@ + line@.take(j as int) + seq![c] =~= old(out)@ + line@.take(
            j as int + 1,
        ));
        j += 1;
    }
    assert(old(out)@ + line@.take(m as int) =~= old(out)@ + line@);
}

/// The text split into lines.
pub fn split_lines(s: &str) -> (r: Vec<String>)
    ensures
        r.deep_view() == spec_split_lines(s@),
{
    let n = s.unicode_len();
    let mut done: Vec<String> = Vec::new();
    let mut cur: Vec<char> = Vec::new();
    let mut i: usize = 0;
    while i < n
        invariant
            i <= n,
            n == s@.len(),
            done.deep_view() =~= split_scan(split_init(), s@, i as int).done,
            cur@ == split_scan(split_init(), s@, i as int).cur,
        decreases n - i,
    {
        let c = s.get_char(i);
        if c == '\n' {
            let ghost prev = done.deep_view();
            let closed = chars_to_string(&cur);
            done.push(closed);
            assert(done.deep_view() =~= prev.push(cur@));
            cur = Vec::new();
        } else {
            cur.push(c);
        }
        i += 1;
    }
    let ghost prev = done.deep_view();
    let last = chars_to_string(&cur);
    done.push(last);
    assert(done.deep_view() =~= prev.push(cur@));
    done
}

/// The lines joined with '\n' between consecutive lines.
pub fn join_lines(lines: &Vec<String>) -> (r: String)
    ensures
        r@ == spec_join_lines(lines.deep_view()),
{
    let ghost dv = lines.deep_view();
    let mut out: Vec<char> = Vec::new();
    let mut i: usize = 0;
    while i < lines.len()
        invariant
            i <= lines.len(),
            dv == lines.deep_view(),
            dv.len() == lines.len(),
            out@ == spec_join_upto(dv, i as int),
        decreases lines.len() - i,
    {
        if i > 0 {
            out.push('\n');
        }
        let ghost pre = out@;
        push_chars(&mut out, &lines[i]);
        assert(lines[i as int]@ == dv[i as int]);
        assert(out@ == spec_join_upto(dv, i as int + 1)) by {
            if i == 0 {
                assert(seq![] + dv[0] =~= dv[0]);
            }
        }
        i += 1;
    }
    chars_to_string(&out)
}

/// A text is newline-free once every position is.
pub proof fn lemma_no_newline_pointwise(s: Seq<char>)
    requires
        forall|i: int| 0 <= i < s.len() ==> s[i] != '\n',
    ensures
        !s.contains('\n'),
{
    if s.contains('\n') {
        let i = choose|i: int| 0 <= i < s.len() && s[i] == '\n';
        assert(s[i] != '\n');
    }
}

/// Concatenation keeps texts newline-free.
pub proof fn lemma_concat_no_newline(a: Seq<char>, b: Seq<char>)
    requires
        !a.contains('\n'),
        !b.contains('\n'),
    ensures
        !(a + b).contains('\n'),
{
    assert forall|i: int| 0 <= i < (a + b).len() implies (a + b)[i] != '\n' by {
        if i < a.len() {
            assert((a + b)[i] == a[i]);
        } else {
            assert((a + b)[i] == b[i - a.len()]);
        }
    }
    lemma_no_newline_pointwise(a + b);
}

pub open spec fn starts_with(s: Seq<char>, p: Seq<char>) -> bool {
    s.len() >= p.len() && s.take(p.len() as int) == p
}

/// The value of a `key: value` line, if the line carries that key.
pub open spec fn parse_field(line: Seq<char>, prefix: Seq<char>) -> Option<Seq<char>> {
    if starts_with(line, prefix) {
        Some(line.skip(prefix.len() as int))
    } else {
        None
    }
}

/// The value of a `key: value` line, if the line starts with the key.
pub fn strip_prefix_line(line: &String, prefix: &str) -> (r: Option<String>)
    ensures
        match r {
            Some(rest) => starts_with(line@, prefix@) && rest@ == line@.skip(prefix@.len() as int),
            None => !starts_with(line@, prefix@),
        },
{
    let s = line.as_str();
    let n = s.unicode_len();
    let m = prefix.unicode_len();
    if n < m {
        proof {
            assert(!starts_with(line@, prefix@));
        }
        return None;
    }
    let mut i: usize = 0;
    while i < m
        invariant
            i <= m,
            m <= n,
            n == s@.len(),
            m == prefix@.len(),
            s@ == line@,
            forall|k: int| 0 <= k < i ==> s@[k] == prefix@[k],
        decreases m - i,
    {
        if s.get_char(i) != prefix.get_char(i) {
            proof {
                assert(line@.take(m as int)[i as int] != prefix@[i as int]);
            }
            return None;
        }
        i += 1;
    }
    let mut rest: Vec<char> = Vec::new();
    let mut j: usize = m;
    while j < n
        invariant
            m <= j <= n,
            n == s@.len(),
            m == prefix@.len(),
            s@ == line@,
            rest@ =~= line@.subrange(m as int, j as int),
        decreases n - j,
    {
        let c = s.get_char(j);
        rest.push(c);
        proof {
            assert(line@.subrange(m as int, j as int).push(line@[j as int]) =~= line@.subrange(
                m as int,
                j as int + 1,
            ));
        }
        j += 1;
    }
    proof {
        assert(line@.take(m as int) =~= prefix@);
        assert(rest@ =~= line@.skip(m as int));
    }
    Some(chars_to_string(&rest))
}

/// Splitting undoes joining: any non-empty list of newline-free lines is
/// recovered exactly from its joined text.
pub proof fn lemma_split_join(ls: Seq<Seq<char>>)
    requires
        ls.len() >= 1,
        forall|k: int| 0 <= k < ls.len() ==> !(#[trigger] ls[k]).contains('\n'),
    ensures
        spec_split_lines(spec_join_lines(ls)) == ls,
{
    let n = ls.len() as int;
    lemma_scan_join(ls, n);
    assert(ls.take(n - 1).push(ls[n - 1]) =~= ls);
}

} // verus!
