//! Character-level helpers: whitespace, trimming, substring search, splitting
//! and joining of lines.

use vstd::prelude::*;

verus! {

/// The Unicode `White_Space` characters, which `char::is_whitespace` and
/// `str::trim` go by.
pub open spec fn is_space(c: char) -> bool {
    let u = c as u32;
    ||| 0x9 <= u <= 0xd
    ||| u == 0x20
    ||| u == 0x85
    ||| u == 0xa0
    ||| u == 0x1680
    ||| 0x2000 <= u <= 0x200a
    ||| u == 0x2028
    ||| u == 0x2029
    ||| u == 0x202f
    ||| u == 0x205f
    ||| u == 0x3000
}

pub fn char_is_space(c: char) -> (r: bool)
    ensures
        r == is_space(c),
{
    let u = c as u32;
    (0x9 <= u && u <= 0xd) || u == 0x20 || u == 0x85 || u == 0xa0 || u == 0x1680 || (0x2000
        <= u && u <= 0x200a) || u == 0x2028 || u == 0x2029 || u == 0x202f || u == 0x205f || u
        == 0x3000
}

pub open spec fn trim_start(s: Seq<char>) -> Seq<char>
    decreases s.len(),
{
    if s.len() > 0 && is_space(s[0]) {
        trim_start(s.drop_first())
    } else {
        s
    }
}

pub open spec fn trim_end(s: Seq<char>) -> Seq<char>
    decreases s.len(),
{
    if s.len() > 0 && is_space(s.last()) {
        trim_end(s.drop_last())
    } else {
        s
    }
}

/// `s` without its leading and trailing whitespace.
pub open spec fn trim(s: Seq<char>) -> Seq<char> {
    trim_end(trim_start(s))
}

/// A copy of `v[lo..hi]`.
pub fn copy_range(v: &[char], lo: usize, hi: usize) -> (r: Vec<char>)
    requires
        lo <= hi <= v@.len(),
    ensures
        r@ == v@.subrange(lo as int, hi as int),
{
    let mut r: Vec<char> = Vec::new();
    let mut i: usize = lo;
    while i < hi
        invariant
            lo <= i <= hi <= v@.len(),
            r@ == v@.subrange(lo as int, i as int),
        decreases hi - i,
    {
        r.push(v[i]);
        i = i + 1;
        assert(r@ =~= v@.subrange(lo as int, i as int));
    }
    r
}

pub fn trim_chars(v: &[char]) -> (r: Vec<char>)
    ensures
        r@ == trim(v@),
{
    let n = v.len();
    let mut lo: usize = 0;
    assert(v@.subrange(0, n as int) =~= v@);
    while lo < n && char_is_space(v[lo])
        invariant
            lo <= n == v@.len(),
            trim_start(v@) == trim_start(v@.subrange(lo as int, n as int)),
        decreases n - lo,
    {
        assert(v@.subrange(lo as int, n as int).drop_first() =~= v@.subrange(
            lo + 1,
            n as int,
        ));
        lo = lo + 1;
    }
    let mut hi: usize = n;
    while hi > lo && char_is_space(v[hi - 1])
        invariant
            lo <= hi <= n == v@.len(),
            trim_start(v@) == v@.subrange(lo as int, n as int),
            trim(v@) == trim_end(v@.subrange(lo as int, hi as int)),
        decreases hi - lo,
    {
        assert(v@.subrange(lo as int, hi as int).drop_last() =~= v@.subrange(
            lo as int,
            hi - 1,
        ));
        hi = hi - 1;
    }
    copy_range(v, lo, hi)
}

/// `n` occurs in `h` as a contiguous run.
pub open spec fn has_infix(h: Seq<char>, n: Seq<char>) -> bool {
    exists|i: int| 0 <= i <= h.len() - n.len() && #[trigger] h.subrange(i, i + n.len()) == n
}

pub fn occurs_at(h: &[char], n: &[char], at: usize) -> (r: bool)
    requires
        at + n@.len() <= h@.len(),
    ensures
        r == (h@.subrange(at as int, at + n@.len()) == n@),
{
    let hl = h.len();
    let mut k: usize = 0;
    while k < n.len()
        invariant
            hl == h@.len(),
            at + n@.len() <= h@.len(),
            k <= n@.len(),
            forall|j: int| 0 <= j < k ==> h@[at + j] == n@[j],
        decreases n@.len() - k,
    {
        if h[at + k] != n[k] {
            assert(h@.subrange(at as int, at + n@.len())[k as int] != n@[k as int]);
            return false;
        }
        k = k + 1;
    }
    assert(h@.subrange(at as int, at + n@.len()) =~= n@);
    true
}

pub fn contains_chars(h: &[char], n: &[char]) -> (r: bool)
    ensures
        r == has_infix(h@, n@),
{
    if n.len() > h.len() {
        return false;
    }
    let last = h.len() - n.len();
    let mut i: usize = 0;
    loop
        invariant
            i <= last,
            last + n@.len() == h@.len(),
            forall|j: int| 0 <= j < i ==> #[trigger] h@.subrange(j, j + n@.len()) != n@,
        decreases last - i,
    {
        if occurs_at(h, n, i) {
            return true;
        }
        if i == last {
            return false;
        }
        i = i + 1;
    }
}

/// The character sequences of a list of character vectors.
pub open spec fn seqs_of(v: Seq<Vec<char>>) -> Seq<Seq<char>> {
    v.map_values(|x: Vec<char>| x@)
}

pub fn same_chars(a: &[char], b: &[char]) -> (r: bool)
    ensures
        r == (a@ == b@),
{
    if a.len() != b.len() {
        return false;
    }
    assert(a@.subrange(0, b@.len() as int) =~= a@);
    occurs_at(a, b, 0)
}

/// `p` is a prefix of `s`.
pub open spec fn starts_with(s: Seq<char>, p: Seq<char>) -> bool {
    p.len() <= s.len() && s.subrange(0, p.len() as int) == p
}

pub fn starts_with_chars(s: &[char], p: &[char]) -> (r: bool)
    ensures
        r == starts_with(s@, p@),
{
    if p.len() > s.len() {
        return false;
    }
    occurs_at(s, p, 0)
}

pub fn append_chars(dst: &mut Vec<char>, src: &[char])
    ensures
        final(dst)@ == old(dst)@ + src@,
{
    let mut i: usize = 0;
    while i < src.len()
        invariant
            i <= src@.len(),
            dst@ == old(dst)@ + src@.take(i as int),
        decreases src@.len() - i,
    {
        dst.push(src[i]);
        i = i + 1;
        assert(dst@ =~= old(dst)@ + src@.take(i as int));
    }
    assert(src@.take(i as int) =~= src@);
}

/// Whether `c` ends a piece: a line break, and also a full stop when `dots`.
pub open spec fn is_break(c: char, dots: bool) -> bool {
    c == '\n' || (dots && c == '.')
}

/// The pieces of `t` between breaks, as `str::split` gives them: one more
/// than the number of breaks, empty pieces included.
pub open spec fn pieces(t: Seq<char>, dots: bool) -> Seq<Seq<char>>
    decreases t.len(),
{
    if t.len() == 0 {
        seq![Seq::<char>::empty()]
    } else {
        let p = pieces(t.drop_last(), dots);
        if is_break(t.last(), dots) {
            p.push(Seq::<char>::empty())
        } else {
            p.update(p.len() - 1, p.last().push(t.last()))
        }
    }
}

pub proof fn lemma_pieces_nonempty(t: Seq<char>, dots: bool)
    ensures
        pieces(t, dots).len() >= 1,
    decreases t.len(),
{
    if t.len() > 0 {
        lemma_pieces_nonempty(t.drop_last(), dots);
    }
}

pub fn split_pieces(t: &[char], dots: bool) -> (r: Vec<Vec<char>>)
    ensures
        seqs_of(r@) == pieces(t@, dots),
{
    let mut done: Vec<Vec<char>> = Vec::new();
    let mut cur: Vec<char> = Vec::new();
    let mut i: usize = 0;
    assert(t@.take(0) =~= Seq::<char>::empty());
    while i < t.len()
        invariant
            i <= t@.len(),
            seqs_of(done@).push(cur@) == pieces(t@.take(i as int), dots),
        decreases t@.len() - i,
    {
        let c = t[i];
        assert(t@.take(i + 1).drop_last() =~= t@.take(i as int));
        proof {
            lemma_pieces_nonempty(t@.take(i as int), dots);
        }
        if c == '\n' || (dots && c == '.') {
            let ghost before = seqs_of(done@);
            let old_cur = cur;
            done.push(old_cur);
            cur = Vec::new();
            assert(seqs_of(done@) =~= before.push(old_cur@));
            assert(seqs_of(done@).push(cur@) =~= pieces(t@.take(i + 1), dots));
        } else {
            cur.push(c);
            assert(seqs_of(done@).push(cur@) =~= pieces(t@.take(i + 1), dots));
        }
        i = i + 1;
    }
    assert(t@.take(i as int) =~= t@);
    let ghost before = seqs_of(done@);
    let ghost last = cur@;
    done.push(cur);
    assert(seqs_of(done@) =~= before.push(last));
    done
}

/// Lines joined with a newline between each two.
pub open spec fn join_lines(ls: Seq<Seq<char>>) -> Seq<char>
    decreases ls.len(),
{
    if ls.len() == 0 {
        Seq::<char>::empty()
    } else if ls.len() == 1 {
        ls[0]
    } else {
        join_lines(ls.drop_last()) + seq!['\n'] + ls.last()
    }
}

/// A non-empty list of non-empty lines joins to a non-empty text.
pub proof fn lemma_join_empty(ls: Seq<Seq<char>>)
    requires
        forall|j: int| 0 <= j < ls.len() ==> #[trigger] ls[j].len() > 0,
    ensures
        join_lines(ls).len() == 0 <==> ls.len() == 0,
{
    if ls.len() == 1 {
        assert(ls[0].len() > 0);
    }
}

pub proof fn lemma_join_push(ls: Seq<Seq<char>>, l: Seq<char>)
    ensures
        join_lines(ls.push(l)) == (if ls.len() == 0 {
            l
        } else {
            join_lines(ls) + seq!['\n'] + l
        }),
{
    assert(ls.push(l).drop_last() =~= ls);
}


/// `s` holds no line break.
pub open spec fn line_free(s: Seq<char>) -> bool {
    forall|j: int| 0 <= j < s.len() ==> s[j] != '\n'
}

pub proof fn lemma_pieces_line_free(t: Seq<char>, dots: bool)
    ensures
        forall|i: int| 0 <= i < pieces(t, dots).len() ==> line_free(#[trigger] pieces(t, dots)[i]),
    decreases t.len(),
{
    if t.len() > 0 {
        lemma_pieces_line_free(t.drop_last(), dots);
        lemma_pieces_nonempty(t.drop_last(), dots);
        let p = pieces(t.drop_last(), dots);
        if !is_break(t.last(), dots) {
            assert forall|i: int| 0 <= i < pieces(t, dots).len() implies line_free(
                #[trigger] pieces(t, dots)[i],
            ) by {
                if i == p.len() - 1 {
                    assert(line_free(p[i]));
                    assert(pieces(t, dots)[i] == p[i].push(t.last()));
                } else {
                    assert(pieces(t, dots)[i] == p[i]);
                }
            }
        } else {
            assert forall|i: int| 0 <= i < pieces(t, dots).len() implies line_free(
                #[trigger] pieces(t, dots)[i],
            ) by {
                if i < p.len() {
                    assert(pieces(t, dots)[i] == p[i]);
                }
            }
        }
    }
}

pub proof fn lemma_trim_line_free(s: Seq<char>)
    requires
        line_free(s),
    ensures
        line_free(trim(s)),
{
    lemma_trim_start_line_free(s);
    lemma_trim_end_line_free(trim_start(s));
}

proof fn lemma_trim_start_line_free(s: Seq<char>)
    requires
        line_free(s),
    ensures
        line_free(trim_start(s)),
    decreases s.len(),
{
    if s.len() > 0 && is_space(s[0]) {
        assert(line_free(s.drop_first())) by {
            assert forall|j: int| 0 <= j < s.drop_first().len() implies s.drop_first()[j] != '\n' by {
                assert(s.drop_first()[j] == s[j + 1]);
            }
        }
        lemma_trim_start_line_free(s.drop_first());
    }
}

proof fn lemma_trim_end_line_free(s: Seq<char>)
    requires
        line_free(s),
    ensures
        line_free(trim_end(s)),
    decreases s.len(),
{
    if s.len() > 0 && is_space(s.last()) {
        assert(line_free(s.drop_last())) by {
            assert forall|j: int| 0 <= j < s.drop_last().len() implies s.drop_last()[j] != '\n' by {
                assert(s.drop_last()[j] == s[j]);
            }
        }
        lemma_trim_end_line_free(s.drop_last());
    }
}

/// Text without breaks added at the end lengthens the last piece.
proof fn lemma_pieces_extend(x: Seq<char>, y: Seq<char>)
    requires
        line_free(y),
    ensures
        pieces(x + y, false) == pieces(x, false).update(
            pieces(x, false).len() - 1,
            pieces(x, false).last() + y,
        ),
    decreases y.len(),
{
    lemma_pieces_nonempty(x, false);
    let p = pieces(x, false);
    if y.len() == 0 {
        assert(x + y =~= x);
        assert(p.last() + y =~= p.last());
        assert(p.update(p.len() - 1, p.last() + y) =~= p);
    } else {
        let y0 = y.drop_last();
        assert(line_free(y0)) by {
            assert forall|j: int| 0 <= j < y0.len() implies y0[j] != '\n' by {
                assert(y0[j] == y[j]);
            }
        }
        lemma_pieces_extend(x, y0);
        assert((x + y).drop_last() =~= x + y0);
        assert((x + y).last() == y.last());
        assert(y.last() != '\n');
        assert((p.last() + y0).push(y.last()) =~= p.last() + y);
        assert(pieces(x + y, false) =~= p.update(p.len() - 1, p.last() + y));
    }
}

/// Splitting joined lines at the breaks gives the lines back.
pub proof fn lemma_pieces_join(ls: Seq<Seq<char>>)
    requires
        ls.len() > 0,
        forall|i: int| 0 <= i < ls.len() ==> line_free(#[trigger] ls[i]),
    ensures
        pieces(join_lines(ls), false) == ls,
    decreases ls.len(),
{
    let e = Seq::<char>::empty();
    if ls.len() == 1 {
        assert(line_free(ls[0]));
        lemma_pieces_extend(e, ls[0]);
        assert(e + ls[0] =~= ls[0]);
        assert(pieces(e, false).last() + ls[0] =~= ls[0]);
        assert(pieces(ls[0], false) =~= ls);
    } else {
        let front = ls.drop_last();
        assert forall|i: int| 0 <= i < front.len() implies line_free(#[trigger] front[i]) by {
            assert(front[i] == ls[i]);
        }
        lemma_pieces_join(front);
        let j = join_lines(front) + seq!['\n'];
        assert(j.drop_last() =~= join_lines(front));
        assert(pieces(j, false) == front.push(e));
        assert(line_free(ls.last()));
        lemma_pieces_extend(j, ls.last());
        assert(e + ls.last() =~= ls.last());
        assert(pieces(j + ls.last(), false) =~= ls);
    }
}

} // verus!
