//! Splitting text at a separator, as `str::split` does.
use vstd::prelude::*;

verus! {

/// `sep` occurs in `s` starting at `i`.
pub open spec fn occurs_at(s: Seq<char>, sep: Seq<char>, i: int) -> bool {
    0 <= i && i + sep.len() <= s.len() && s.subrange(i, i + sep.len()) == sep
}

/// The pieces of `s` between the occurrences of `sep`, taken from the left
/// without overlap. There is always at least one piece.
pub open spec fn split(s: Seq<char>, sep: Seq<char>) -> Seq<Seq<char>>
    decreases s.len(),
{
    if s.len() == 0 {
        seq![Seq::empty()]
    } else if sep.len() > 0 && occurs_at(s, sep, 0) {
        seq![Seq::empty()] + split(s.subrange(sep.len() as int, s.len() as int), sep)
    } else {
        let r = split(s.drop_first(), sep);
        r.update(0, seq![s[0]] + r[0])
    }
}

pub proof fn lemma_split_nonempty(s: Seq<char>, sep: Seq<char>)
    ensures
        split(s, sep).len() >= 1,
    decreases s.len(),
{
    if s.len() == 0 {
    } else if sep.len() > 0 && occurs_at(s, sep, 0) {
        lemma_split_nonempty(s.subrange(sep.len() as int, s.len() as int), sep);
    } else {
        lemma_split_nonempty(s.drop_first(), sep);
    }
}

/// Whether `sep` occurs in `s` starting at character `i`.
fn occurs_at_exec(s: &str, sep: &str, i: usize) -> (r: bool)
    requires
        i <= s@.len(),
    ensures
        r == occurs_at(s@, sep@, i as int),
{
    let n = s.unicode_len();
    let m = sep.unicode_len();
    if m > n - i {
        return false;
    }
    let mut k: usize = 0;
    while k < m
        invariant
            n == s@.len(),
            m == sep@.len(),
            i + m <= n,
            k <= m,
            s@.subrange(i as int, i + k) == sep@.subrange(0, k as int),
        decreases m - k,
    {
        if s.get_char(i + k) != sep.get_char(k) {
            assert(s@.subrange(i as int, i + m)[k as int] != sep@[k as int]);
            return false;
        }
        assert(s@.subrange(i as int, i + k + 1) =~= s@.subrange(i as int, i + k).push(s@[i + k]));
        assert(sep@.subrange(0, k + 1) =~= sep@.subrange(0, k as int).push(sep@[k as int]));
        k = k + 1;
    }
    assert(sep@.subrange(0, m as int) =~= sep@);
    true
}

/// Splits `s` at every occurrence of `sep`, from the left.
pub fn split_str(s: &str, sep: &str) -> (r: Vec<String>)
    requires
        sep@.len() > 0,
    ensures
        r@.map_values(|p: String| p@) == split(s@, sep@),
{
    let n = s.unicode_len();
    let m = sep.unicode_len();
    let mut pieces: Vec<String> = Vec::new();
    let mut start: usize = 0;
    let mut i: usize = 0;
    assert(s@.subrange(0, n as int) =~= s@);
    proof {
        lemma_split_nonempty(s@, sep@);
        let r = split(s@, sep@);
        assert(r.update(0, Seq::<char>::empty() + r[0]) =~= r);
        assert(s@.subrange(0, 0) =~= Seq::<char>::empty());
        assert(pieces@.map_values(|p: String| p@) + r =~= r);
    }
    while i < n
        invariant
            n == s@.len(),
            m == sep@.len(),
            m > 0,
            start <= i <= n,
            split(s@, sep@) == pieces@.map_values(|p: String| p@) + split(s@.subrange(start as int, n as int), sep@),
            split(s@.subrange(start as int, n as int), sep@) == ({
                let r = split(s@.subrange(i as int, n as int), sep@);
                r.update(0, s@.subrange(start as int, i as int) + r[0])
            }),
        decreases n - i,
    {
        let ghost tail = s@.subrange(i as int, n as int);
        proof {
            assert(tail.len() > 0);
            assert(occurs_at(tail, sep@, 0) == occurs_at(s@, sep@, i as int)) by {
                if i + m <= n {
                    assert(tail.subrange(0, m as int) =~= s@.subrange(i as int, i + m));
                }
            }
        }
        if occurs_at_exec(s, sep, i) {
            let ghost piece = s@.subrange(start as int, i as int);
            let ghost rest = s@.subrange(i + m, n as int);
            let ghost old_pv = pieces@.map_values(|p: String| p@);
            pieces.push(s.substring_char(start, i).to_owned());
            proof {
                assert(tail.subrange(m as int, tail.len() as int) =~= rest);
                assert(split(tail, sep@) == seq![Seq::<char>::empty()] + split(rest, sep@));
                assert(pieces@.map_values(|p: String| p@) =~= old_pv.push(piece));
                let r = split(rest, sep@);
                lemma_split_nonempty(rest, sep@);
                assert((seq![Seq::<char>::empty()] + r).update(0, piece + Seq::<char>::empty()) =~= seq![piece] + r);
                assert(old_pv + (seq![piece] + r) =~= old_pv.push(piece) + r);
                assert(r.update(0, s@.subrange(i + m, i + m) + r[0]) =~= r);
            }
            i = i + m;
            start = i;
        } else {
            proof {
                let next = s@.subrange(i + 1, n as int);
                assert(tail.drop_first() =~= next);
                lemma_split_nonempty(next, sep@);
                let r2 = split(next, sep@);
                assert(split(tail, sep@) == r2.update(0, seq![s@[i as int]] + r2[0]));
                assert(s@.subrange(start as int, i + 1) =~= s@.subrange(start as int, i as int) + seq![s@[i as int]]);
                assert(s@.subrange(start as int, i as int) + (seq![s@[i as int]] + r2[0])
                    =~= s@.subrange(start as int, i + 1) + r2[0]);
                assert(r2.update(0, seq![s@[i as int]] + r2[0]).update(0, s@.subrange(start as int, i as int) + (seq![s@[i as int]] + r2[0]))
                    =~= r2.update(0, s@.subrange(start as int, i + 1) + r2[0]));
            }
            i = i + 1;
        }
    }
    let ghost old_pv = pieces@.map_values(|p: String| p@);
    let ghost last = s@.subrange(start as int, n as int);
    pieces.push(s.substring_char(start, n).to_owned());
    proof {
        assert(s@.subrange(n as int, n as int) =~= Seq::<char>::empty());
        assert(split(s@.subrange(start as int, n as int), sep@) =~= seq![last]);
        assert(pieces@.map_values(|p: String| p@) =~= old_pv.push(last));
        assert(old_pv + seq![last] =~= old_pv.push(last));
    }
    pieces
}

} // verus!
