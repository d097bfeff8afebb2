use vstd::prelude::*;
use vstd::string::*;
use crate::text::chars_to_string;

verus! {

/// A 128-bit identifier naming one lyric or one playlist.
///
/// The identifier doubles as the filename stem of the entity's file and as
/// the join key between playlists and lyrics. Its text form is the usual
/// hyphenated lower-case hex rendering, 36 characters long.
#[derive(Clone, Copy, PartialEq, Eq, Hash, Debug, Structural)]
pub struct Uuid {
    pub bits: u128,
}

/// Relies on `uuid::Uuid::new_v4` for a random 128-bit value; nothing is
/// promised of the result.
#[verifier::external_body]
fn random_bits() -> u128 {
    uuid::Uuid::new_v4().as_u128()
}

/// The lower-case hex digit for a value below 16.
pub open spec fn nibble_char(d: int) -> char {
    if d == 0 {
        '0'
    } else if d == 1 {
        '1'
    } else if d == 2 {
        '2'
    } else if d == 3 {
        '3'
    } else if d == 4 {
        '4'
    } else if d == 5 {
        '5'
    } else if d == 6 {
        '6'
    } else if d == 7 {
        '7'
    } else if d == 8 {
        '8'
    } else if d == 9 {
        '9'
    } else if d == 10 {
        'a'
    } else if d == 11 {
        'b'
    } else if d == 12 {
        'c'
    } else if d == 13 {
        'd'
    } else if d == 14 {
        'e'
    } else {
        'f'
    }
}

/// The value of a lower-case hex digit, or 16 for any other character.
pub open spec fn nibble_val(c: char) -> int {
    if c == '0' {
        0
    } else if c == '1' {
        1
    } else if c == '2' {
        2
    } else if c == '3' {
        3
    } else if c == '4' {
        4
    } else if c == '5' {
        5
    } else if c == '6' {
        6
    } else if c == '7' {
        7
    } else if c == '8' {
        8
    } else if c == '9' {
        9
    } else if c == 'a' {
        10
    } else if c == 'b' {
        11
    } else if c == 'c' {
        12
    } else if c == 'd' {
        13
    } else if c == 'e' {
        14
    } else if c == 'f' {
        15
    } else {
        16
    }
}

/// Hex digit `k` of the identifier, most significant first.
pub open spec fn spec_nibble(x: u128, k: int) -> u128 {
    (x >> ((4 * (31 - k)) as u128)) & 0xf
}

/// Whether character position `i` of the text form holds a hyphen.
pub open spec fn is_sep(i: int) -> bool {
    i == 8 || i == 13 || i == 18 || i == 23
}

/// How many of the positions before `i` hold hex digits.
pub open spec fn digits_before(i: int) -> int {
    if i <= 8 {
        i
    } else if i <= 13 {
        i - 1
    } else if i <= 18 {
        i - 2
    } else if i <= 23 {
        i - 3
    } else {
        i - 4
    }
}

/// The hyphenated lower-case text form of a 128-bit identifier.
pub open spec fn spec_hyphenated(x: u128) -> Seq<char> {
    Seq::new(
        36,
        |i: int|
            if is_sep(i) {
                '-'
            } else {
                nibble_char(spec_nibble(x, digits_before(i)) as int)
            },
    )
}

/// The text form of an identifier, as the error taxonomy and the playlist
/// file format embed it.
pub open spec fn uuid_str(u: Uuid) -> Seq<char> {
    spec_hyphenated(u.bits)
}

/// The digits of a partially parsed identifier folded into a value,
/// most significant digit first.
pub open spec fn fold_digits(ds: Seq<u128>) -> u128
    decreases ds.len(),
{
    if ds.len() == 0 {
        0
    } else {
        (fold_digits(ds.drop_last()) << 4u128) | ds.last()
    }
}

proof fn lemma_bv_nibble_small(x: u128, sh: u128)
    requires
        sh <= 124,
    ensures
        (x >> sh) & 0xf < 16,
{
    assert((x >> sh) & 0xf < 16) by (bit_vector);
}

proof fn lemma_bv_low(a: u128, d: u128)
    requires
        d < 16,
    ensures
        ((a << 4u128) | d) & 0xf == d,
{
    assert(((a << 4u128) | d) & 0xf == d) by (bit_vector)
        requires
            d < 16u128,
    ;
}

proof fn lemma_bv_shift_through(a: u128, d: u128, t: u128)
    requires
        d < 16,
        t <= 120,
    ensures
        (((a << 4u128) | d) >> ((t + 4) as u128)) & 0xf == (a >> t) & 0xf,
{
    assert((((a << 4u128) | d) >> ((t + 4) as u128)) & 0xf == (a >> t) & 0xf) by (bit_vector)
        requires
            d < 16u128,
            t <= 120u128,
    ;
}

/// Every digit of a folded digit list is recovered by `spec_nibble`-style
/// extraction relative to the list's own length.
proof fn lemma_fold_nibbles(ds: Seq<u128>)
    requires
        1 <= ds.len() <= 32,
        forall|j: int| 0 <= j < ds.len() ==> ds[j] < 16,
    ensures
        forall|j: int|
            0 <= j < ds.len() ==> (fold_digits(ds) >> ((4 * (ds.len() - 1 - j)) as u128)) & 0xf
                == ds[j],
    decreases ds.len(),
{
    let n = ds.len() as int;
    let a = fold_digits(ds.drop_last());
    let d = ds.last();
    assert(fold_digits(ds) == (a << 4u128) | d);
    lemma_bv_low(a, d);
    let f = fold_digits(ds);
    assert(f >> 0u128 == f) by (bit_vector);
    assert((4 * (n - 1 - (n - 1))) as u128 == 0u128);
    if n > 1 {
        lemma_fold_nibbles(ds.drop_last());
        assert forall|j: int| 0 <= j < n - 1 implies (fold_digits(ds) >> ((4 * (n - 1 - j))
            as u128)) & 0xf == ds[j] by {
            let t = (4 * (n - 2 - j)) as u128;
            lemma_bv_shift_through(a, d, t);
            assert((a >> t) & 0xf == ds.drop_last()[j]);
        }
    }
}

/// A value is rebuilt from its top `m` nibbles: two values whose first `m`
/// hex digits agree also agree once shifted down past the rest.
proof fn lemma_rebuild(x: u128, y: u128, m: int)
    requires
        1 <= m <= 32,
        forall|k: int| 0 <= k < m ==> spec_nibble(x, k) == spec_nibble(y, k),
    ensures
        x >> ((4 * (32 - m)) as u128) == y >> ((4 * (32 - m)) as u128),
    decreases m,
{
    if m == 1 {
        assert(spec_nibble(x, 0) == spec_nibble(y, 0));
        assert((4 * (31 - 0)) as u128 == 124u128);
        assert((4 * (32 - 1)) as u128 == 124u128);
        assert(x >> 124u128 == (x >> 124u128) & 0xf) by (bit_vector);
        assert(y >> 124u128 == (y >> 124u128) & 0xf) by (bit_vector);
    } else {
        lemma_rebuild(x, y, m - 1);
        let t = (4 * (32 - m)) as u128;
        assert((4 * (32 - (m - 1))) as u128 == (t + 4) as u128);
        assert(spec_nibble(x, m - 1) == spec_nibble(y, m - 1));
        assert((4 * (31 - (m - 1))) as u128 == t);
        assert(x >> t == ((x >> ((t + 4) as u128)) << 4u128) | ((x >> t) & 0xf)) by (bit_vector)
            requires
                t <= 120u128,
        ;
        assert(y >> t == ((y >> ((t + 4) as u128)) << 4u128) | ((y >> t) & 0xf)) by (bit_vector)
            requires
                t <= 120u128,
        ;
    }
}

/// An identifier is determined by its 32 hex digits.
proof fn lemma_nibbles_determine(x: u128, y: u128)
    requires
        forall|k: int| 0 <= k < 32 ==> spec_nibble(x, k) == spec_nibble(y, k),
    ensures
        x == y,
{
    lemma_rebuild(x, y, 32);
    assert((4 * (32 - 32)) as u128 == 0u128);
    assert(x >> 0u128 == x) by (bit_vector);
    assert(y >> 0u128 == y) by (bit_vector);
}

/// `nibble_char` and `nibble_val` invert each other on the hex digits.
proof fn lemma_nibble_char_val()
    ensures
        forall|d: int| 0 <= d < 16 ==> nibble_val(#[trigger] nibble_char(d)) == d,
        forall|c: char| nibble_val(c) < 16 ==> #[trigger] nibble_char(nibble_val(c)) == c,
{
}

impl Uuid {
    /// A freshly drawn random identifier.
    pub fn new() -> Uuid {
        Uuid { bits: random_bits() }
    }

    pub fn from_bits(bits: u128) -> (r: Uuid)
        ensures
            r.bits == bits,
    {
        Uuid { bits }
    }

    pub fn inner(&self) -> (r: u128)
        ensures
            r == self.bits,
    {
        self.bits
    }

    /// The 36-character hyphenated text form of this identifier.
    pub fn hyphenated(&self) -> (r: String)
        ensures
            r@ == spec_hyphenated(self.bits),
    {
        let mut cs: Vec<char> = Vec::new();
        let mut i: usize = 0;
        let mut k: usize = 0;
        while i < 36
            invariant
                i <= 36,
                k == digits_before(i as int),
                cs@.len() == i,
                forall|p: int| 0 <= p < i ==> cs@[p] == spec_hyphenated(self.bits)[p],
            decreases 36 - i,
        {
            if i == 8 || i == 13 || i == 18 || i == 23 {
                cs.push('-');
            } else {
                let sh: u128 = 4 * (31 - k as u128);
                let d: u128 = (self.bits >> sh) & 0xf;
                proof {
                    lemma_bv_nibble_small(self.bits, sh);
                }
                cs.push(hex_char(d as u8));
            }
            i = i + 1;
            k = if i <= 8 {
                i
            } else if i <= 13 {
                i - 1
            } else if i <= 18 {
                i - 2
            } else if i <= 23 {
                i - 3
            } else {
                i - 4
            };
        }
        let r = chars_to_string(&cs);
        proof {
            assert(cs@ =~= spec_hyphenated(self.bits));
        }
        r
    }

    /// Parses the hyphenated text form; returns the identifier exactly when
    /// the text is the canonical rendering of one.
    pub fn from_hyphenated(s: &str) -> (r: Option<Uuid>)
        ensures
            match r {
                Some(u) => s@ == spec_hyphenated(u.bits),
                None => forall|x: u128| s@ != spec_hyphenated(x),
            },
    {
        let n = s.unicode_len();
        if n != 36 {
            proof {
                assert forall|x: u128| s@ != spec_hyphenated(x) by {
                    assert(spec_hyphenated(x).len() == 36);
                }
            }
            return None;
        }
        let mut acc: u128 = 0;
        let ghost mut ds: Seq<u128> = seq![];
        let mut i: usize = 0;
        let mut k: usize = 0;
        while i < 36
            invariant
                i <= 36,
                n == 36,
                s@.len() == 36,
                k == digits_before(i as int),
                ds.len() == k,
                acc == fold_digits(ds),
                forall|j: int| 0 <= j < ds.len() ==> ds[j] < 16,
                forall|p: int|
                    0 <= p < i ==> if is_sep(p) {
                        s@[p] == '-'
                    } else {
                        nibble_val(s@[p]) == ds[digits_before(p)]
                    },
            decreases 36 - i,
        {
            let c = s.get_char(i);
            if i == 8 || i == 13 || i == 18 || i == 23 {
                if c != '-' {
                    proof {
                        assert forall|x: u128| s@ != spec_hyphenated(x) by {
                            assert(spec_hyphenated(x)[i as int] == '-');
                        }
                    }
                    return None;
                }
            } else {
                let v = hex_val(c);
                if v >= 16 {
                    proof {
                        lemma_nibble_char_val();
                        assert forall|x: u128| s@ != spec_hyphenated(x) by {
                            lemma_bv_nibble_small(x, (4 * (31 - digits_before(i as int))) as u128);
                            assert(spec_hyphenated(x)[i as int] == nibble_char(
                                spec_nibble(x, digits_before(i as int)) as int,
                            ));
                            assert(nibble_val(spec_hyphenated(x)[i as int]) < 16);
                        }
                    }
                    return None;
                }
                proof {
                    lemma_bv_low(acc, v as u128);
                    let ds0 = ds;
                    ds = ds.push(v as u128);
                    assert(ds.drop_last() =~= ds0);
                }
                acc = (acc << 4u128) | (v as u128);
            }
            i = i + 1;
            k = if i <= 8 {
                i
            } else if i <= 13 {
                i - 1
            } else if i <= 18 {
                i - 2
            } else if i <= 23 {
                i - 3
            } else {
                i - 4
            };
        }
        proof {
            lemma_fold_nibbles(ds);
            lemma_nibble_char_val();
            assert forall|p: int| 0 <= p < 36 implies s@[p] == spec_hyphenated(acc)[p] by {
                if !is_sep(p) {
                    let j = digits_before(p);
                    assert((fold_digits(ds) >> ((4 * (31 - j)) as u128)) & 0xf == ds[j]);
                    assert(spec_nibble(acc, j) == ds[j]);
                    assert(nibble_val(s@[p]) == ds[j]);
                    assert(nibble_char(nibble_val(s@[p])) == s@[p]);
                }
            }
            assert(s@ =~= spec_hyphenated(acc));
        }
        Some(Uuid { bits: acc })
    }
}

/// The identifier a text names, if the text is a canonical rendering.
pub open spec fn spec_parse_uuid(s: Seq<char>) -> Option<Uuid> {
    if exists|x: u128| s == spec_hyphenated(x) {
        Some(Uuid { bits: choose|x: u128| s == spec_hyphenated(x) })
    } else {
        None
    }
}

/// Parsing the canonical rendering of an identifier gives it back.
pub proof fn lemma_parse_uuid_roundtrip(u: Uuid)
    ensures
        spec_parse_uuid(uuid_str(u)) == Some(u),
{
    let s = uuid_str(u);
    assert(s == spec_hyphenated(u.bits));
    let x = choose|x: u128| s == spec_hyphenated(x);
    lemma_hyphenated_injective(x, u.bits);
}

/// No character of the rendering is a newline, so an identifier always
/// stays on one line of a file.
pub proof fn lemma_hyphenated_no_newline(x: u128)
    ensures
        !spec_hyphenated(x).contains('\n'),
{
    assert forall|i: int| 0 <= i < 36 implies spec_hyphenated(x)[i] != '\n' by {
        if !is_sep(i) {
            let d = spec_nibble(x, digits_before(i)) as int;
            assert(nibble_char(d) != '\n');
        }
    }
    assert(!spec_hyphenated(x).contains('\n')) by {
        if spec_hyphenated(x).contains('\n') {
            let i = choose|i: int|
                0 <= i < spec_hyphenated(x).len() && spec_hyphenated(x)[i] == '\n';
            assert(spec_hyphenated(x)[i] != '\n');
        }
    }
}

/// The canonical rendering is injective: equal texts name equal identifiers.
pub proof fn lemma_hyphenated_injective(x: u128, y: u128)
    requires
        spec_hyphenated(x) == spec_hyphenated(y),
    ensures
        x == y,
{
    lemma_nibble_char_val();
    assert forall|k: int| 0 <= k < 32 implies spec_nibble(x, k) == spec_nibble(y, k) by {
        let p = if k < 8 {
            k
        } else if k < 12 {
            k + 1
        } else if k < 16 {
            k + 2
        } else if k < 20 {
            k + 3
        } else {
            k + 4
        };
        assert(!is_sep(p) && digits_before(p) == k);
        let cx = spec_hyphenated(x)[p];
        let cy = spec_hyphenated(y)[p];
        assert(cx == cy);
        assert(cx == nibble_char(spec_nibble(x, k) as int));
        assert(cy == nibble_char(spec_nibble(y, k) as int));
        lemma_bv_nibble_small(x, (4 * (31 - k)) as u128);
        lemma_bv_nibble_small(y, (4 * (31 - k)) as u128);
        assert(nibble_val(nibble_char(spec_nibble(x, k) as int)) == spec_nibble(x, k) as int);
        assert(nibble_val(nibble_char(spec_nibble(y, k) as int)) == spec_nibble(y, k) as int);
    }
    lemma_nibbles_determine(x, y);
}

/// Parses the hyphenated text form against the spec-level parse: the two
/// agree on every input.
pub fn parse_uuid_str(s: &str) -> (r: Option<Uuid>)
    ensures
        r == spec_parse_uuid(s@),
{
    let r = Uuid::from_hyphenated(s);
    proof {
        match r {
            Some(u) => {
                let x = choose|x: u128| s@ == spec_hyphenated(x);
                lemma_hyphenated_injective(x, u.bits);
            },
            None => {},
        }
    }
    r
}

fn hex_char(d: u8) -> (c: char)
    requires
        d < 16,
    ensures
        c == nibble_char(d as int),
{
    match d {
        0 => '0',
        1 => '1',
        2 => '2',
        3 => '3',
        4 => '4',
        5 => '5',
        6 => '6',
        7 => '7',
        8 => '8',
        9 => '9',
        10 => 'a',
        11 => 'b',
        12 => 'c',
        13 => 'd',
        14 => 'e',
        _ => 'f',
    }
}

fn hex_val(c: char) -> (v: u8)
    ensures
        v as int == nibble_val(c),
{
    match c {
        '0' => 0,
        '1' => 1,
        '2' => 2,
        '3' => 3,
        '4' => 4,
        '5' => 5,
        '6' => 6,
        '7' => 7,
        '8' => 8,
        '9' => 9,
        'a' => 10,
        'b' => 11,
        'c' => 12,
        'd' => 13,
        'e' => 14,
        'f' => 15,
        _ => 16,
    }
}

} // verus!
