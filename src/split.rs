use vstd::prelude::*;
use vstd::string::*;

verus! {

/// The pieces of `s` between occurrences of `sep`, in order. Two separators in
/// a row give an empty piece between them, and text without a separator is a
/// single piece (so the empty text gives one empty piece).
pub open spec fn split_chars(s: Seq<char>, sep: char) -> Seq<Seq<char>>
    decreases s.len(),
{
    if s.len() == 0 {
        seq![Seq::empty()]
    } else {
        let init = split_chars(s.drop_last(), sep);
        if s.last() == sep {
            init.push(Seq::empty())
        } else {
            init.update(init.len() - 1, init.last().push(s.last()))
        }
    }
}

/// The text of each piece.
pub open spec fn views_of(v: Seq<&str>) -> Seq<Seq<char>> {
    v.map_values(|t: &str| t@)
}

/// Splitting always gives at least one piece.
pub proof fn lemma_split_nonempty(s: Seq<char>, sep: char)
    ensures
        split_chars(s, sep).len() >= 1,
    decreases s.len(),
{
    if s.len() > 0 {
        lemma_split_nonempty(s.drop_last(), sep);
    }
}

/// Text without the separator is a single piece.
pub proof fn lemma_split_no_sep(s: Seq<char>, sep: char)
    requires
        !s.contains(sep),
    ensures
        split_chars(s, sep) == seq![s],
    decreases s.len(),
{
    if s.len() > 0 {
        assert(!s.drop_last().contains(sep)) by {
            if s.drop_last().contains(sep) {
                let k = choose|k: int| 0 <= k < s.drop_last().len() && s.drop_last()[k] == sep;
                assert(s[k] == sep);
            }
        }
        lemma_split_no_sep(s.drop_last(), sep);
        assert(s.last() != sep) by {
            assert(s[s.len() - 1] == s.last());
        }
        assert(s.drop_last().push(s.last()) =~= s);
        assert(split_chars(s, sep) =~= seq![s]);
    } else {
        assert(s =~= Seq::empty());
    }
}

/// Text joined at one separator splits into the pieces of each side.
pub proof fn lemma_split_join(x: Seq<char>, y: Seq<char>, sep: char)
    ensures
        split_chars(x + seq![sep] + y, sep) == split_chars(x, sep) + split_chars(y, sep),
    decreases y.len(),
{
    let xs = x + seq![sep];
    if y.len() == 0 {
        assert(xs.drop_last() =~= x);
        assert(xs + y =~= xs);
        assert(split_chars(xs, sep) =~= split_chars(x, sep) + split_chars(y, sep));
    } else {
        let y0 = y.drop_last();
        assert((xs + y).drop_last() =~= xs + y0);
        assert((xs + y).last() == y.last());
        lemma_split_join(x, y0, sep);
        lemma_split_nonempty(y0, sep);
        lemma_split_nonempty(x, sep);
        assert(x + seq![sep] + y =~= xs + y);
        let a = split_chars(x, sep);
        let b = split_chars(y0, sep);
        if y.last() == sep {
            assert((a + b).push(Seq::empty()) =~= a + b.push(Seq::empty()));
        } else {
            let c = b.last().push(y.last());
            assert((a + b).last() == b.last());
            assert((a + b).update((a + b).len() - 1, c) =~= a + b.update(b.len() - 1, c));
        }
    }
}

/// Splits `s` at every occurrence of `sep`.
pub fn split_on<'a>(s: &'a str, sep: char) -> (r: Vec<&'a str>)
    ensures
        views_of(r@) == split_chars(s@, sep),
{
    let n = s.unicode_len();
    let mut pieces: Vec<&'a str> = Vec::new();
    let mut start: usize = 0;
    let mut i: usize = 0;
    proof {
        assert(s@.take(0) =~= Seq::empty());
        assert(s@.subrange(0, 0) =~= Seq::empty());
        assert(views_of(pieces@) =~= Seq::empty());
    }
    while i < n
        invariant
            n == s@.len(),
            start <= i <= n,
            views_of(pieces@).push(s@.subrange(start as int, i as int)) == split_chars(
                s@.take(i as int),
                sep,
            ),
        decreases n - i,
    {
        let c = s.get_char(i);
        let ghost prev = split_chars(s@.take(i as int), sep);
        proof {
            let t = s@.take(i as int + 1);
            assert(t.drop_last() =~= s@.take(i as int));
            assert(t.last() == c);
            lemma_split_nonempty(s@.take(i as int), sep);
        }
        if c == sep {
            let piece = s.substring_char(start, i);
            let ghost before = pieces@;
            pieces.push(piece);
            start = i + 1;
            proof {
                assert(views_of(pieces@) =~= views_of(before).push(piece@));
                assert(s@.subrange(start as int, start as int) =~= Seq::empty());
                assert(split_chars(s@.take(i as int + 1), sep) == prev.push(Seq::empty()));
                assert(views_of(pieces@).push(s@.subrange(start as int, i as int + 1))
                    =~= prev.push(Seq::empty()));
            }
        } else {
            proof {
                let cur = s@.subrange(start as int, i as int);
                assert(s@.subrange(start as int, i as int + 1) =~= cur.push(c));
                assert(prev.last() == cur);
                assert(split_chars(s@.take(i as int + 1), sep) == prev.update(
                    prev.len() - 1,
                    cur.push(c),
                ));
                assert(views_of(pieces@).push(s@.subrange(start as int, i as int + 1))
                    =~= prev.update(prev.len() - 1, cur.push(c)));
            }
        }
        i = i + 1;
        proof {
            assert(views_of(pieces@).push(s@.subrange(start as int, i as int)) =~= split_chars(
                s@.take(i as int),
                sep,
            ));
        }
    }
    let last = s.substring_char(start, n);
    let ghost before = pieces@;
    pieces.push(last);
    proof {
        assert(s@.take(n as int) =~= s@);
        assert(views_of(pieces@) =~= views_of(before).push(last@));
    }
    pieces
}

} // verus!
