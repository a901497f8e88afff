//! Byte-sequence helpers shared by the manifest parser, the registry codec
//! and the lock writer: whitespace trimming, line splitting, equality and a
//! lexicographic total order on byte strings.
use vstd::prelude::*;

verus! {

/// Space, horizontal tab or carriage return: the bytes stripped from the ends
/// of a manifest line before the line is interpreted.
pub open spec fn is_ws(b: u8) -> bool {
    b == 32 || b == 9 || b == 13
}

pub fn byte_is_ws(b: u8) -> (r: bool)
    ensures
        r == is_ws(b),
{
    b == 32 || b == 9 || b == 13
}

pub open spec fn trim_start_spec(s: Seq<u8>) -> Seq<u8>
    decreases s.len(),
{
    if s.len() == 0 {
        s
    } else if is_ws(s[0]) {
        trim_start_spec(s.drop_first())
    } else {
        s
    }
}

pub open spec fn trim_end_spec(s: Seq<u8>) -> Seq<u8>
    decreases s.len(),
{
    if s.len() == 0 {
        s
    } else if is_ws(s.last()) {
        trim_end_spec(s.drop_last())
    } else {
        s
    }
}

/// A line with leading and trailing whitespace removed.
pub open spec fn trim_spec(s: Seq<u8>) -> Seq<u8> {
    trim_end_spec(trim_start_spec(s))
}

pub fn trim(s: &[u8]) -> (r: Vec<u8>)
    ensures
        r@ == trim_spec(s@),
{
    let mut lo: usize = 0;
    proof {
        assert(s@.subrange(0, s@.len() as int) =~= s@);
    }
    while lo < s.len() && byte_is_ws(s[lo])
        invariant
            0 <= lo <= s@.len(),
            trim_start_spec(s@) == trim_start_spec(s@.subrange(lo as int, s@.len() as int)),
        decreases s@.len() - lo,
    {
        proof {
            assert(s@.subrange(lo as int, s@.len() as int).drop_first() =~= s@.subrange(
                lo as int + 1,
                s@.len() as int,
            ));
        }
        lo = lo + 1;
    }
    proof {
        assert(trim_start_spec(s@) == s@.subrange(lo as int, s@.len() as int));
    }
    let mut hi: usize = s.len();
    while hi > lo && byte_is_ws(s[hi - 1])
        invariant
            lo <= hi <= s@.len(),
            trim_start_spec(s@) == s@.subrange(lo as int, s@.len() as int),
            trim_end_spec(s@.subrange(lo as int, s@.len() as int)) == trim_end_spec(
                s@.subrange(lo as int, hi as int),
            ),
        decreases hi,
    {
        proof {
            assert(s@.subrange(lo as int, hi as int).drop_last() =~= s@.subrange(
                lo as int,
                hi as int - 1,
            ));
        }
        hi = hi - 1;
    }
    let r = vstd::slice::slice_to_vec(vstd::slice::slice_subrange(s, lo, hi));
    proof {
        assert(trim_end_spec(s@.subrange(lo as int, hi as int)) == s@.subrange(
            lo as int,
            hi as int,
        ));
    }
    r
}

pub fn bytes_eq(a: &[u8], b: &[u8]) -> (r: bool)
    ensures
        r == (a@ == b@),
{
    if a.len() != b.len() {
        proof {
            if a@ == b@ {
                assert(a@.len() == b@.len());
            }
        }
        return false;
    }
    let mut i: usize = 0;
    while i < a.len()
        invariant
            i <= a@.len(),
            a@.len() == b@.len(),
            forall|j: int| 0 <= j < i ==> a@[j] == b@[j],
        decreases a@.len() - i,
    {
        if a[i] != b[i] {
            proof {
                if a@ == b@ {
                    assert(a@[i as int] == b@[i as int]);
                }
            }
            return false;
        }
        i = i + 1;
    }
    proof {
        assert(a@ =~= b@);
    }
    true
}

/// Bytes allowed in a bare key: ASCII letters, digits, `-` and `_`.
pub open spec fn is_bare(b: u8) -> bool {
    (48 <= b && b <= 57) || (65 <= b && b <= 90) || (97 <= b && b <= 122) || b == 45 || b == 95
}

pub fn byte_is_bare(b: u8) -> (r: bool)
    ensures
        r == is_bare(b),
{
    (48 <= b && b <= 57) || (65 <= b && b <= 90) || (97 <= b && b <= 122) || b == 45 || b == 95
}

/// The length of the longest prefix made of bare-key bytes.
pub open spec fn bare_len(s: Seq<u8>) -> int
    decreases s.len(),
{
    if s.len() == 0 || !is_bare(s[0]) {
        0
    } else {
        1 + bare_len(s.drop_first())
    }
}

pub proof fn lemma_bare_len_bounds(s: Seq<u8>)
    ensures
        0 <= bare_len(s) <= s.len(),
    decreases s.len(),
{
    if s.len() > 0 && is_bare(s[0]) {
        lemma_bare_len_bounds(s.drop_first());
    }
}

pub fn bare_prefix_len(s: &[u8]) -> (r: usize)
    ensures
        r == bare_len(s@),
{
    proof {
        lemma_bare_len_bounds(s@);
        assert(s@.subrange(0, s@.len() as int) =~= s@);
    }
    let mut i: usize = 0;
    while i < s.len() && byte_is_bare(s[i])
        invariant
            0 <= i <= s@.len(),
            bare_len(s@) == i + bare_len(s@.subrange(i as int, s@.len() as int)),
        decreases s@.len() - i,
    {
        proof {
            assert(s@.subrange(i as int, s@.len() as int).drop_first() =~= s@.subrange(
                i as int + 1,
                s@.len() as int,
            ));
            lemma_bare_len_bounds(s@.subrange(i as int + 1, s@.len() as int));
        }
        i = i + 1;
    }
    i
}

pub fn trim_start_sl<'a>(s: &'a [u8]) -> (r: &'a [u8])
    ensures
        r@ == trim_start_spec(s@),
{
    proof {
        assert(s@.subrange(0, s@.len() as int) =~= s@);
    }
    let mut lo: usize = 0;
    while lo < s.len() && byte_is_ws(s[lo])
        invariant
            0 <= lo <= s@.len(),
            trim_start_spec(s@) == trim_start_spec(s@.subrange(lo as int, s@.len() as int)),
        decreases s@.len() - lo,
    {
        proof {
            assert(s@.subrange(lo as int, s@.len() as int).drop_first() =~= s@.subrange(
                lo as int + 1,
                s@.len() as int,
            ));
        }
        lo = lo + 1;
    }
    vstd::slice::slice_subrange(s, lo, s.len())
}

pub proof fn lemma_trim_start_len(s: Seq<u8>)
    ensures
        trim_start_spec(s).len() <= s.len(),
    decreases s.len(),
{
    if s.len() > 0 && is_ws(s[0]) {
        lemma_trim_start_len(s.drop_first());
    }
}

/// Scanning the body of a quoted string: the bytes up to the closing quote,
/// which may contain neither a quote nor a backslash, and the remainder of
/// the input after the closing quote.
pub open spec fn scan_str_spec(s: Seq<u8>) -> Option<(Seq<u8>, Seq<u8>)>
    decreases s.len(),
{
    if s.len() == 0 {
        None
    } else if s[0] == 34 {
        Some((Seq::<u8>::empty(), s.drop_first()))
    } else if s[0] == 92 {
        None
    } else {
        match scan_str_spec(s.drop_first()) {
            None => None,
            Some(p) => Some((seq![s[0]] + p.0, p.1)),
        }
    }
}

pub proof fn lemma_scan_str_len(s: Seq<u8>)
    ensures
        scan_str_spec(s) is Some ==> scan_str_spec(s)->Some_0.1.len() < s.len(),
    decreases s.len(),
{
    if s.len() > 0 && s[0] != 34 && s[0] != 92 {
        lemma_scan_str_len(s.drop_first());
    }
}

pub fn scan_str<'a>(s: &'a [u8]) -> (r: Option<(Vec<u8>, &'a [u8])>)
    ensures
        match r {
            Some(p) => scan_str_spec(s@) == Some((p.0@, p.1@)),
            None => scan_str_spec(s@) is None,
        },
    decreases s@.len(),
{
    if s.len() == 0 {
        None
    } else if s[0] == 34 {
        let rest = vstd::slice::slice_subrange(s, 1, s.len());
        proof {
            assert(s@.subrange(1, s@.len() as int) =~= s@.drop_first());
        }
        Some((Vec::new(), rest))
    } else if s[0] == 92 {
        None
    } else {
        let b = s[0];
        let tail = vstd::slice::slice_subrange(s, 1, s.len());
        proof {
            assert(s@.subrange(1, s@.len() as int) =~= s@.drop_first());
        }
        match scan_str(tail) {
            None => None,
            Some(p) => {
                let (mut c, rest) = p;
                c.insert(0, b);
                proof {
                    assert(c@ =~= seq![s@[0]] + scan_str_spec(s@.drop_first())->Some_0.0);
                }
                Some((c, rest))
            },
        }
    }
}

pub fn clone_bytes(v: &Vec<u8>) -> (r: Vec<u8>)
    ensures
        r@ == v@,
{
    let r = v.clone();
    proof {
        assert(r@ =~= v@);
    }
    r
}

/// Lexicographic order on byte strings, a prefix ordering below any extension.
pub open spec fn lex_leq(a: Seq<u8>, b: Seq<u8>) -> bool
    decreases a.len(),
{
    if a.len() == 0 {
        true
    } else if b.len() == 0 {
        false
    } else if a[0] < b[0] {
        true
    } else if a[0] > b[0] {
        false
    } else {
        lex_leq(a.drop_first(), b.drop_first())
    }
}

pub proof fn lemma_lex_antisym(a: Seq<u8>, b: Seq<u8>)
    requires
        lex_leq(a, b),
        lex_leq(b, a),
    ensures
        a == b,
    decreases a.len(),
{
    if a.len() == 0 {
        assert(b.len() == 0);
        assert(a =~= b);
    } else {
        assert(b.len() > 0);
        assert(a[0] == b[0]);
        lemma_lex_antisym(a.drop_first(), b.drop_first());
        assert(forall|i: int| 1 <= i < a.len() ==> a[i] == a.drop_first()[i - 1]);
        assert(forall|i: int| 1 <= i < b.len() ==> b[i] == b.drop_first()[i - 1]);
        assert(a =~= b);
    }
}

pub proof fn lemma_lex_trans(a: Seq<u8>, b: Seq<u8>, c: Seq<u8>)
    requires
        lex_leq(a, b),
        lex_leq(b, c),
    ensures
        lex_leq(a, c),
    decreases a.len(),
{
    if a.len() == 0 {
    } else if b.len() == 0 {
    } else if c.len() == 0 {
    } else {
        if a[0] == b[0] && b[0] == c[0] {
            lemma_lex_trans(a.drop_first(), b.drop_first(), c.drop_first());
        }
    }
}

pub proof fn lemma_lex_connected(a: Seq<u8>, b: Seq<u8>)
    ensures
        lex_leq(a, b) || lex_leq(b, a),
    decreases a.len(),
{
    if a.len() > 0 && b.len() > 0 && a[0] == b[0] {
        lemma_lex_connected(a.drop_first(), b.drop_first());
    }
}

pub fn bytes_le(a: &[u8], b: &[u8]) -> (r: bool)
    ensures
        r == lex_leq(a@, b@),
    decreases a@.len(),
{
    if a.len() == 0 {
        true
    } else if b.len() == 0 {
        false
    } else if a[0] < b[0] {
        true
    } else if a[0] > b[0] {
        false
    } else {
        let r = bytes_le(
            vstd::slice::slice_subrange(a, 1, a.len()),
            vstd::slice::slice_subrange(b, 1, b.len()),
        );
        proof {
            assert(a@.subrange(1, a@.len() as int) =~= a@.drop_first());
            assert(b@.subrange(1, b@.len() as int) =~= b@.drop_first());
        }
        r
    }
}

/// The views of a vector of byte vectors.
pub open spec fn views(v: Seq<Vec<u8>>) -> Seq<Seq<u8>> {
    v.map_values(|l: Vec<u8>| l@)
}

/// Splitting a text at newline bytes; the split of the empty text is one
/// empty line, and every newline byte opens a further line.
pub open spec fn split_lines_spec(s: Seq<u8>) -> Seq<Seq<u8>>
    decreases s.len(),
{
    if s.len() == 0 {
        seq![Seq::<u8>::empty()]
    } else if s[0] == 10 {
        seq![Seq::<u8>::empty()] + split_lines_spec(s.drop_first())
    } else {
        let rest = split_lines_spec(s.drop_first());
        rest.update(0, seq![s[0]] + rest[0])
    }
}

pub proof fn lemma_split_lines_len(s: Seq<u8>)
    ensures
        split_lines_spec(s).len() >= 1,
    decreases s.len(),
{
    if s.len() > 0 {
        lemma_split_lines_len(s.drop_first());
    }
}

pub fn split_lines(s: &[u8]) -> (r: Vec<Vec<u8>>)
    ensures
        views(r@) == split_lines_spec(s@),
        r@.len() >= 1,
    decreases s@.len(),
{
    proof {
        lemma_split_lines_len(s@);
    }
    if s.len() == 0 {
        let mut r: Vec<Vec<u8>> = Vec::new();
        r.push(Vec::new());
        proof {
            assert(views(r@) =~~= split_lines_spec(s@));
        }
        r
    } else if s[0] == 10 {
        let mut rest = split_lines(vstd::slice::slice_subrange(s, 1, s.len()));
        rest.insert(0, Vec::new());
        proof {
            assert(s@.subrange(1, s@.len() as int) =~= s@.drop_first());
            assert(views(rest@) =~~= split_lines_spec(s@));
        }
        rest
    } else {
        let mut rest = split_lines(vstd::slice::slice_subrange(s, 1, s.len()));
        let mut head = rest.remove(0);
        head.insert(0, s[0]);
        rest.insert(0, head);
        proof {
            assert(s@.subrange(1, s@.len() as int) =~= s@.drop_first());
            lemma_split_lines_len(s@.drop_first());
            assert(views(rest@) =~~= split_lines_spec(s@));
        }
        rest
    }
}

} // verus!
